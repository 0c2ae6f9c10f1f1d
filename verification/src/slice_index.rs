//! The family of index-range types accepted by the ranged-access operation:
//! each range form resolves to a half-open byte range of the indexed text.

use vstd::prelude::*;
use core::ops::{Range, RangeFrom, RangeFull, RangeInclusive, RangeTo, RangeToInclusive};

verus! {

#[verifier::external_type_specification]
#[verifier::reject_recursive_types(Idx)]
pub struct ExRangeFrom<Idx>(RangeFrom<Idx>);

#[verifier::external_type_specification]
#[verifier::reject_recursive_types(Idx)]
pub struct ExRangeTo<Idx>(RangeTo<Idx>);

#[verifier::external_type_specification]
#[verifier::reject_recursive_types(Idx)]
pub struct ExRangeToInclusive<Idx>(RangeToInclusive<Idx>);

#[verifier::external_type_specification]
pub struct ExRangeFull(RangeFull);

/// Relies on RangeInclusive::start: it returns the lower bound the range was
/// created with.
#[verifier::external_body]
fn range_inclusive_start(r: &RangeInclusive<usize>) -> (s: usize)
    ensures
        s == r@.start,
{
    *r.start()
}

/// Relies on RangeInclusive::end: it returns the upper bound the range was
/// created with.
#[verifier::external_body]
fn range_inclusive_end(r: &RangeInclusive<usize>) -> (e: usize)
    ensures
        e == r@.end,
{
    *r.end()
}

/// An index-range form usable for ranged access into soft-constrained text:
/// given the byte length of the text it resolves to an inclusive start and
/// an exclusive end.
///
/// The trait stands in for the native slice-index bound, which cannot carry
/// these contracts; it is implemented for the native range types and not
/// meant to be implemented elsewhere.
pub trait TempSliceIndexHelper: Sized {
    /// The resolved inclusive start, in bytes.
    spec fn start_spec(&self, len: nat) -> int;

    /// The resolved exclusive end, in bytes.
    spec fn end_spec(&self, len: nat) -> int;

    /// Computes the resolved bounds.
    fn resolve(&self, len: usize) -> (r: (usize, usize))
        requires
            0 <= self.start_spec(len as nat),
            self.end_spec(len as nat) <= len,
        ensures
            r.0 == self.start_spec(len as nat),
            r.1 == self.end_spec(len as nat),
    ;
}

impl TempSliceIndexHelper for Range<usize> {
    open spec fn start_spec(&self, len: nat) -> int {
        self.start as int
    }

    open spec fn end_spec(&self, len: nat) -> int {
        self.end as int
    }

    fn resolve(&self, len: usize) -> (r: (usize, usize)) {
        (self.start, self.end)
    }
}

impl TempSliceIndexHelper for RangeInclusive<usize> {
    open spec fn start_spec(&self, len: nat) -> int {
        self@.start as int
    }

    open spec fn end_spec(&self, len: nat) -> int {
        self@.end + 1
    }

    fn resolve(&self, len: usize) -> (r: (usize, usize)) {
        let s = range_inclusive_start(self);
        let e = range_inclusive_end(self);
        (s, e + 1)
    }
}

impl TempSliceIndexHelper for RangeFrom<usize> {
    open spec fn start_spec(&self, len: nat) -> int {
        self.start as int
    }

    open spec fn end_spec(&self, len: nat) -> int {
        len as int
    }

    fn resolve(&self, len: usize) -> (r: (usize, usize)) {
        (self.start, len)
    }
}

impl TempSliceIndexHelper for RangeTo<usize> {
    open spec fn start_spec(&self, len: nat) -> int {
        0
    }

    open spec fn end_spec(&self, len: nat) -> int {
        self.end as int
    }

    fn resolve(&self, len: usize) -> (r: (usize, usize)) {
        (0, self.end)
    }
}

impl TempSliceIndexHelper for RangeToInclusive<usize> {
    open spec fn start_spec(&self, len: nat) -> int {
        0
    }

    open spec fn end_spec(&self, len: nat) -> int {
        self.end + 1
    }

    fn resolve(&self, len: usize) -> (r: (usize, usize)) {
        (0, self.end + 1)
    }
}

impl TempSliceIndexHelper for RangeFull {
    open spec fn start_spec(&self, len: nat) -> int {
        0
    }

    open spec fn end_spec(&self, len: nat) -> int {
        len as int
    }

    fn resolve(&self, len: usize) -> (r: (usize, usize)) {
        (0, len)
    }
}

} // verus!
