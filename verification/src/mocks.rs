//! Deterministic random sources for tests: one that always yields the same
//! value and one that cycles through a fixed sequence.

use vstd::prelude::*;
use crate::randwrapper::RangeRng;

verus! {

/// A random source that always yields the same value. A value outside the
/// requested range yields the range's lower end instead; the original
/// failed fast there, which a verified body may not, so the clamping is
/// stated in the contract.
pub struct SingleValueRangeRng {
    pub value: usize,
}

impl SingleValueRangeRng {
    pub fn new(value: usize) -> (r: SingleValueRangeRng)
        ensures
            r.value == value,
    {
        SingleValueRangeRng { value }
    }
}

impl RangeRng for SingleValueRangeRng {
    /// The one value the next draw yields: the fixed value, or the range's
    /// lower end when the fixed value falls outside the range.
    open spec fn spec_may_yield(self, lower: usize, upper: usize, value: usize) -> bool {
        value == if lower <= self.value < upper {
            self.value
        } else {
            lower
        }
    }

    fn gen_range(&mut self, lower: usize, upper: usize) -> (r: usize)
        ensures
            *final(self) == *old(self),
            r == if lower <= old(self).value < upper {
                old(self).value
            } else {
                lower
            },
    {
        if lower <= self.value && self.value < upper {
            self.value
        } else {
            lower
        }
    }
}

/// A random source that cycles through a fixed sequence of values. A value
/// outside the requested range yields the range's lower end instead, and an
/// empty sequence always yields the lower end; the original failed fast in
/// both cases, which a verified body may not, so the clamping is stated in
/// the contract.
pub struct SequenceRangeRng {
    pub next: usize,
    pub seq: Vec<usize>,
}

impl SequenceRangeRng {
    pub fn new(value: &[usize]) -> (r: SequenceRangeRng)
        ensures
            r.seq@ == value@,
            r.next == 0,
    {
        SequenceRangeRng { next: 0, seq: vstd::slice::slice_to_vec(value) }
    }
}

impl RangeRng for SequenceRangeRng {
    /// The one value the next draw yields: the sequence entry at the cursor
    /// (taken modulo the length), clamped to the range's lower end.
    open spec fn spec_may_yield(self, lower: usize, upper: usize, value: usize) -> bool {
        value == if self.seq@.len() == 0 {
            lower as int
        } else {
            let v = self.seq@[self.next as int % self.seq@.len() as int];
            if lower <= v < upper {
                v as int
            } else {
                lower as int
            }
        }
    }

    fn gen_range(&mut self, lower: usize, upper: usize) -> (r: usize)
        ensures
            final(self).seq@ == old(self).seq@,
            final(self).next == if old(self).seq@.len() == 0 {
                old(self).next as int
            } else {
                (old(self).next as int % old(self).seq@.len() as int + 1) % old(
                    self,
                ).seq@.len() as int
            },
            old(self).spec_may_yield(lower, upper, r),
    {
        if self.seq.len() == 0 {
            return lower;
        }
        let i = self.next % self.seq.len();
        let value = self.seq[i];
        self.next = (i + 1) % self.seq.len();
        if lower <= value && value < upper {
            value
        } else {
            lower
        }
    }
}

} // verus!
