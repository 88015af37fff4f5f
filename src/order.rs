use vstd::prelude::*;

verus! {

/// The ordering a heap keeps: `Min` puts the smallest element on top,
/// `Max` the largest.
#[derive(Debug, Clone, Copy, PartialEq, Eq, Structural)]
pub enum HeapProperty {
    Min,
    Max,
}

/// `a` may stand above `b` in a heap of the given ordering.
pub open spec fn precedes(p: HeapProperty, a: i32, b: i32) -> bool {
    match p {
        HeapProperty::Min => a <= b,
        HeapProperty::Max => a >= b,
    }
}

/// `a` strictly improves on `b`: it must move above `b`.
pub open spec fn beats(p: HeapProperty, a: i32, b: i32) -> bool {
    match p {
        HeapProperty::Min => a < b,
        HeapProperty::Max => a > b,
    }
}

/// Executable form of `beats`.
pub(crate) fn improves(p: HeapProperty, a: i32, b: i32) -> (r: bool)
    ensures
        r == beats(p, a, b),
{
    match p {
        HeapProperty::Min => a < b,
        HeapProperty::Max => a > b,
    }
}

} // verus!
