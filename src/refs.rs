use vstd::prelude::*;

verus! {

/// A mutable reference to the first number of the tuple when its flag is false, to the
/// second when it is true.
pub fn f1(tuple: &mut (u32, u32, bool)) -> (r: &mut u32)
    ensures
        *r == if old(tuple).2 { old(tuple).1 } else { old(tuple).0 },
        *final(tuple) == if old(tuple).2 {
            (old(tuple).0, *final(r), true)
        } else {
            (*final(r), old(tuple).1, false)
        },
{
    if tuple.2 {
        &mut tuple.1
    } else {
        &mut tuple.0
    }
}

/// A mutable reference to the `n`-th element of the slice.
pub fn f2(slice: &mut [u32], n: usize) -> (r: &mut u32)
    requires
        n < old(slice)@.len(),
    ensures
        *r == old(slice)@[n as int],
        final(slice)@ == old(slice)@.update(n as int, *final(r)),
{
    let (_, tail) = slice.split_at_mut(n);
    match tail.first_mut() {
        Some(x) => x,
        None => unreached(),
    }
}

/// A mutable reference to the `n`-th element counted from the end (0 is the last).
pub fn f3(slice: &mut [u32], n: usize) -> (r: &mut u32)
    requires
        n < old(slice)@.len(),
    ensures
        *r == old(slice)@[old(slice)@.len() - 1 - n],
        final(slice)@ == old(slice)@.update(old(slice)@.len() - 1 - n, *final(r)),
{
    let idx = slice.len() - 1 - n;
    f2(slice, idx)
}

/// Where the `k`-th of four parts of a slice of length `len` ends: each part holds
/// `len / 4` elements, and the first `len % 4` parts one more.
pub open spec fn quarter_end(len: int, k: int) -> int {
    k * (len / 4) + if len % 4 < k {
        len % 4
    } else {
        k
    }
}

/// Cuts the slice into four consecutive parts whose lengths differ by at most one, the
/// longer ones first.
pub fn f4(slice: &[u32]) -> (r: (&[u32], &[u32], &[u32], &[u32]))
    ensures
        r.0@ == slice@.subrange(0, quarter_end(slice@.len() as int, 1)),
        r.1@ == slice@.subrange(quarter_end(slice@.len() as int, 1), quarter_end(slice@.len() as int, 2)),
        r.2@ == slice@.subrange(quarter_end(slice@.len() as int, 2), quarter_end(slice@.len() as int, 3)),
        r.3@ == slice@.subrange(quarter_end(slice@.len() as int, 3), slice@.len() as int),
        r.0@ + r.1@ + r.2@ + r.3@ == slice@,
{
    let len = slice.len();
    let chunk_size = len / 4;
    let remainder = len % 4;
    let end1 = chunk_size + if remainder > 0 { 1 } else { 0 };
    let end2 = end1 + chunk_size + if remainder > 1 { 1 } else { 0 };
    let end3 = end2 + chunk_size + if remainder > 2 { 1 } else { 0 };
    assert(end3 == quarter_end(len as int, 3));
    assert(end2 == quarter_end(len as int, 2));
    assert(end1 == quarter_end(len as int, 1));
    let r = (&slice[0..end1], &slice[end1..end2], &slice[end2..end3], &slice[end3..len]);
    assert(r.0@ + r.1@ + r.2@ + r.3@ =~= slice@);
    r
}

} // verus!
