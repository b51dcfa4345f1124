//! Integer overflow and underflow: storage slots whose value jumped between
//! the two ends of the range of a word.

use vstd::prelude::*;

use crate::evm::oracles::{push_report, report};
use crate::evm::types::EVMU256;

verus! {

pub const INTEGER_OVERFLOW_BUG_IDX: u64 = 11;

/// Two to the power of 255: numbers above it are near the largest word.
#[verifier::inline]
pub open spec fn near_max() -> nat {
    0x8000_0000_0000_0000_0000_0000_0000_0000_0000_0000_0000_0000_0000_0000_0000_0000nat
}

/// The word above which a value is considered near the largest word.
pub fn overflow_threshold() -> (r: EVMU256)
    ensures
        r.value() == near_max(),
{
    EVMU256 { hi: 0x8000_0000_0000_0000_0000_0000_0000_0000u128, lo: 0 }
}

/// Whether a slot that went from `pre` to `post` wrapped around: from a small
/// number to one near the largest word, or back.
pub open spec fn wrapped(pre: EVMU256, post: EVMU256) -> bool {
    ||| pre.value() < 1_000_000 && post.value() > near_max()
    ||| pre.value() > near_max() && post.value() < 1_000_000
}

/// Whether some slot of the `(slot, pre, post)` triples wrapped around.
pub open spec fn some_wrapped(changes: Seq<(EVMU256, EVMU256, EVMU256)>) -> bool {
    exists|i: int| 0 <= i < changes.len() && wrapped((#[trigger] changes[i]).1, changes[i].2)
}

/// Overflow and underflow are told apart by direction only: a wrap seen from
/// `pre` to `post` is one seen from `post` to `pre`.
pub proof fn law_wrapped_symmetric(pre: EVMU256, post: EVMU256)
    ensures
        wrapped(pre, post) == wrapped(post, pre),
{
}

/// A slot that keeps its value did not wrap.
pub proof fn law_unchanged_not_wrapped(v: EVMU256)
    ensures
        !wrapped(v, v),
{
}

/// Reports slots that wrapped around.
#[derive(Clone, Copy, Debug, PartialEq, Eq, Structural)]
pub struct IntegerOverflowOracle;

impl IntegerOverflowOracle {
    pub fn new() -> (r: IntegerOverflowOracle)
        ensures
            r == IntegerOverflowOracle,
    {
        IntegerOverflowOracle
    }

    /// Whether a slot that went from `pre` to `post` wrapped around.
    pub fn check_slot(pre: EVMU256, post: EVMU256) -> (r: bool)
        ensures
            r == wrapped(pre, post),
    {
        let threshold = overflow_threshold();
        let small = EVMU256::from(1_000_000u64);
        if small.exceeds(&pre) && post.exceeds(&threshold) {
            return true;
        }
        if pre.exceeds(&threshold) && small.exceeds(&post) {
            return true;
        }
        false
    }

    /// Scans `(slot, pre, post)` triples; reports at most one bug.
    pub fn inspect(slot_changes: &[(EVMU256, EVMU256, EVMU256)]) -> (r: Vec<u64>)
        ensures
            r@ == report(some_wrapped(slot_changes@), INTEGER_OVERFLOW_BUG_IDX),
    {
        let mut bugs: Vec<u64> = Vec::new();
        let mut found = false;
        let mut i: usize = 0;
        while i < slot_changes.len() && !found
            invariant
                i <= slot_changes@.len(),
                found == exists|j: int|
                    0 <= j < i && wrapped((#[trigger] slot_changes@[j]).1, slot_changes@[j].2),
            decreases slot_changes.len() - i,
        {
            found = Self::check_slot(slot_changes[i].1, slot_changes[i].2);
            i = i + 1;
            assert(found == wrapped(slot_changes@[i - 1].1, slot_changes@[i - 1].2));
        }
        push_report(&mut bugs, found, INTEGER_OVERFLOW_BUG_IDX);
        bugs
    }

    /// The report for a single value that went from `pre` to `post`.
    pub fn inspect_value(pre: EVMU256, post: EVMU256) -> (r: Vec<u64>)
        ensures
            r@ == report(wrapped(pre, post), INTEGER_OVERFLOW_BUG_IDX),
    {
        let mut bugs: Vec<u64> = Vec::new();
        push_report(&mut bugs, Self::check_slot(pre, post), INTEGER_OVERFLOW_BUG_IDX);
        bugs
    }
}

impl Default for IntegerOverflowOracle {
    fn default() -> (r: IntegerOverflowOracle)
        ensures
            r == IntegerOverflowOracle,
    {
        Self::new()
    }
}

} // verus!
