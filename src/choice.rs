use vstd::prelude::*;

verus! {

/// One of two values of possibly different types.
#[derive(Eq, PartialEq, Debug)]
pub enum Choice<T, U> {
    First(T),
    Second(U),
}

} // verus!
