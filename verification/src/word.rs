//! The state word: one machine word per block packing the observer count and
//! the two lifecycle flags, with strict bit ownership so that the count and
//! the flags never alias.
//!
//! All operations here are pure bit manipulation; the two fatal preconditions
//! (count overflow on increment, count underflow on decrement) are stated as
//! `requires`, and [`checked_increment_observers`] reports the overflow
//! condition as `None` instead of wrapping.

use vstd::prelude::*;

verus! {

/// Low bits of the state word: the observer count field.
pub const COUNT_MASK: usize = !0usize >> 2;

/// Highest bit: the block was shrunk in place to the state-only layout.
pub const STORAGE_RELEASED_FLAG: usize = !(!0usize >> 1);

/// Second-highest bit: the value's destructor has run (or the value was moved
/// out); reading the value is forbidden once this is set.
pub const VALUE_DROPPED_FLAG: usize = (!(!0usize >> 1)) >> 1;

/// The observer count recorded in `w`.
pub open spec fn count(w: usize) -> usize {
    w & COUNT_MASK
}

/// Whether `w` records that the value has been destroyed.
pub open spec fn dropped(w: usize) -> bool {
    w & VALUE_DROPPED_FLAG != 0
}

/// Whether `w` records that the value's storage has been shed.
pub open spec fn released(w: usize) -> bool {
    w & STORAGE_RELEASED_FLAG != 0
}

/// `w` with its observer count replaced by `c` and both flags kept.
pub open spec fn with_count(w: usize, c: usize) -> usize
    recommends
        c <= COUNT_MASK,
{
    (w & !COUNT_MASK) | (c & COUNT_MASK)
}

/// `w` with the value-dropped flag set and all other bits kept.
pub open spec fn with_dropped(w: usize) -> usize {
    w | VALUE_DROPPED_FLAG
}

/// `w` with the storage-released flag set and all other bits kept.
pub open spec fn with_released(w: usize) -> usize {
    w | STORAGE_RELEASED_FLAG
}

/// The count field never exceeds its mask.
pub proof fn lemma_count_bound(w: usize)
    ensures
        count(w) <= COUNT_MASK,
{
    assert(count(w) <= COUNT_MASK) by (bit_vector);
}

/// The count field has room for at least one observer.
pub proof fn lemma_count_mask_positive()
    ensures
        0 < COUNT_MASK,
{
    assert(0 < COUNT_MASK) by (bit_vector);
}

/// A fresh word records no observers and neither flag.
pub proof fn lemma_fresh_word()
    ensures
        count(0usize) == 0,
        !dropped(0usize),
        !released(0usize),
{
    assert(count(0usize) == 0 && !dropped(0usize) && !released(0usize)) by (bit_vector);
}

/// Replacing the count field touches neither flag.
pub proof fn lemma_with_count(w: usize, c: usize)
    requires
        c <= COUNT_MASK,
    ensures
        count(with_count(w, c)) == c,
        dropped(with_count(w, c)) == dropped(w),
        released(with_count(w, c)) == released(w),
{
    assert(count(with_count(w, c)) == c && dropped(with_count(w, c)) == dropped(w) && released(
        with_count(w, c),
    ) == released(w)) by (bit_vector)
        requires
            c <= COUNT_MASK,
    ;
}

/// Setting the value-dropped flag preserves the count and the other flag.
pub proof fn lemma_with_dropped(w: usize)
    ensures
        count(with_dropped(w)) == count(w),
        dropped(with_dropped(w)),
        released(with_dropped(w)) == released(w),
{
    assert(count(with_dropped(w)) == count(w) && dropped(with_dropped(w)) && released(
        with_dropped(w),
    ) == released(w)) by (bit_vector);
}

/// Setting the storage-released flag preserves the count and the other flag.
pub proof fn lemma_with_released(w: usize)
    ensures
        count(with_released(w)) == count(w),
        released(with_released(w)),
        dropped(with_released(w)) == dropped(w),
{
    assert(count(with_released(w)) == count(w) && released(with_released(w)) && dropped(
        with_released(w),
    ) == dropped(w)) by (bit_vector);
}

/// Reads the observer count field of `w`.
pub fn observer_count(w: usize) -> (c: usize)
    ensures
        c == count(w),
        c <= COUNT_MASK,
{
    proof {
        lemma_count_bound(w);
    }
    w & COUNT_MASK
}

/// Whether the value's destructor has run.
pub fn value_dropped(w: usize) -> (b: bool)
    ensures
        b == dropped(w),
{
    w & VALUE_DROPPED_FLAG != 0
}

/// Whether the value's storage has been shed.
pub fn storage_released(w: usize) -> (b: bool)
    ensures
        b == released(w),
{
    w & STORAGE_RELEASED_FLAG != 0
}

/// Sets the value-dropped flag, preserving the count and the other flag.
pub fn mark_value_dropped(w: usize) -> (r: usize)
    ensures
        r == with_dropped(w),
        count(r) == count(w),
        dropped(r),
        released(r) == released(w),
{
    proof {
        lemma_with_dropped(w);
    }
    w | VALUE_DROPPED_FLAG
}

/// Sets the storage-released flag, preserving the count and the other flag.
pub fn mark_storage_released(w: usize) -> (r: usize)
    ensures
        r == with_released(w),
        count(r) == count(w),
        released(r),
        dropped(r) == dropped(w),
{
    proof {
        lemma_with_released(w);
    }
    w | STORAGE_RELEASED_FLAG
}

/// Adds one observer.  Overflow of the count field is a fatal condition and
/// is excluded here; [`checked_increment_observers`] detects it instead.
pub fn increment_observers(w: usize) -> (r: usize)
    requires
        count(w) < COUNT_MASK,
    ensures
        r == with_count(w, (count(w) + 1) as usize),
        count(r) == count(w) + 1,
        dropped(r) == dropped(w),
        released(r) == released(w),
{
    let c = w & COUNT_MASK;
    proof {
        lemma_count_bound(w);
        lemma_with_count(w, (c + 1) as usize);
    }
    (w & !COUNT_MASK) | ((c + 1) & COUNT_MASK)
}

/// Removes one observer.  The count is only ever decremented for an observer
/// that was counted, so a zero count here is a broken invariant and excluded.
pub fn decrement_observers(w: usize) -> (r: usize)
    requires
        count(w) > 0,
    ensures
        r == with_count(w, (count(w) - 1) as usize),
        count(r) == count(w) - 1,
        dropped(r) == dropped(w),
        released(r) == released(w),
{
    let c = w & COUNT_MASK;
    proof {
        lemma_count_bound(w);
        lemma_with_count(w, (c - 1) as usize);
    }
    (w & !COUNT_MASK) | ((c - 1) & COUNT_MASK)
}

/// Adds one observer, reporting the fatal overflow condition as `None`
/// instead of wrapping: a saturated count field admits no further observer.
pub fn checked_increment_observers(w: usize) -> (r: Option<usize>)
    ensures
        r is Some <==> count(w) < COUNT_MASK,
        r matches Some(v) ==> v == with_count(w, (count(w) + 1) as usize),
{
    let c = w & COUNT_MASK;
    if c < COUNT_MASK {
        Some(increment_observers(w))
    } else {
        None
    }
}

} // verus!
