use vstd::prelude::*;

verus! {

/// Integer division that rounds toward zero, as Rust's `/` does on signed integers.
pub open spec fn div_toward_zero(a: int, d: int) -> int
    recommends
        d > 0,
{
    if a >= 0 {
        a / d
    } else {
        -((-a) / d)
    }
}

/// Converts Celsius to Fahrenheit: `c * 9 / 5 + 32`, the division rounding toward zero.
pub fn celsius2farenheit(celsius: i32) -> (r: i32)
    requires
        i32::MIN <= celsius * 9 <= i32::MAX,
    ensures
        r == div_toward_zero(celsius * 9, 5) + 32,
{
    (celsius * 9 / 5) + 32
}

/// Converts Fahrenheit to Celsius: `(f - 32) * 5 / 9`, the division rounding toward zero.
pub fn farenheit2celsius(farenheit: i32) -> (r: i32)
    requires
        i32::MIN <= (farenheit - 32) * 5 <= i32::MAX,
    ensures
        r == div_toward_zero((farenheit - 32) * 5, 9),
{
    (farenheit - 32) * 5 / 9
}

/// The Fibonacci numbers: 0, 1, 1, 2, 3, 5, ...
pub open spec fn fib(n: nat) -> nat
    decreases n,
{
    if n == 0 {
        0
    } else if n == 1 {
        1
    } else {
        fib((n - 1) as nat) + fib((n - 2) as nat)
    }
}

/// The Fibonacci numbers never decrease.
pub proof fn lemma_fib_monotone(i: nat, j: nat)
    requires
        i <= j,
    ensures
        fib(i) <= fib(j),
    decreases j,
{
    if i < j {
        lemma_fib_monotone(i, (j - 1) as nat);
        if j >= 2 {
            assert(fib(j) == fib((j - 1) as nat) + fib((j - 2) as nat));
        }
    }
}

/// The `n`-th Fibonacci number, computed by a loop.
pub fn fibonacci_loop(n: u32) -> (r: u64)
    requires
        fib(n as nat) <= u64::MAX,
    ensures
        r == fib(n as nat),
{
    if n == 0 {
        return 0;
    }
    let mut a: u64 = 0;
    let mut b: u64 = 1;
    let mut i: u32 = 1;
    while i < n
        invariant
            1 <= i <= n,
            a == fib((i - 1) as nat),
            b == fib(i as nat),
            fib(n as nat) <= u64::MAX,
        decreases n - i,
    {
        proof {
            lemma_fib_monotone((i + 1) as nat, n as nat);
        }
        let c = a + b;
        a = b;
        b = c;
        i += 1;
    }
    b
}

/// The `n`-th Fibonacci number, computed by recursion.
pub fn fibonacci_rec(n: u32) -> (r: u64)
    requires
        fib(n as nat) <= u64::MAX,
    ensures
        r == fib(n as nat),
    decreases n,
{
    match n {
        0 => 0,
        1 => 1,
        _ => {
            proof {
                lemma_fib_monotone((n - 1) as nat, n as nat);
                lemma_fib_monotone((n - 2) as nat, n as nat);
            }
            fibonacci_rec(n - 1) + fibonacci_rec(n - 2)
        },
    }
}

} // verus!
