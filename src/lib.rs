pub mod bank;
pub mod calc;
pub mod choice;
pub mod laws;
pub mod refs;
pub mod song;
