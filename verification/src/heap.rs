//! The allocation block manager.
//!
//! A block is one allocation holding a state word and, while the value is
//! alive, the value itself.  The manager can shrink a block in place to the
//! state-only layout once the value is destroyed — a best-effort space
//! optimization that depends on the allocator — and frees a block through a
//! single gate: exactly when the value is gone and no observer remains.
//!
//! The manager's model is its sequence of slots, one per block ever
//! allocated; every operation's contract gives the new sequence exactly, as a
//! step function of the old one.

use crate::word;
use vstd::pervasive::unreached;
use vstd::prelude::*;

verus! {

/// One block of the manager.
pub enum Slot<T> {
    /// The block has been freed.
    Vacant,
    /// The full layout: the state word beside the value's storage.  After the
    /// value is destroyed, the storage stays allocated (and empty) until the
    /// block is shrunk or freed.
    Full { word: usize, value: Option<T> },
    /// The state-only layout, after a successful shrink in place.
    Shrunk { word: usize },
}

/// The outcome of the release gate.
pub enum Release {
    /// The block was freed.
    Released,
    /// The value or at least one observer still holds the block.
    StillReferenced,
}

/// Block `i` exists and has not been freed.
pub open spec fn is_allocated<T>(s: Seq<Slot<T>>, i: int) -> bool {
    0 <= i < s.len() && !(s[i] is Vacant)
}

/// The state word of block `i`.
pub open spec fn word_at<T>(s: Seq<Slot<T>>, i: int) -> usize {
    match s[i] {
        Slot::Vacant => 0,
        Slot::Full { word, .. } => word,
        Slot::Shrunk { word } => word,
    }
}

/// Block `i` still holds its value.
pub open spec fn value_present<T>(s: Seq<Slot<T>>, i: int) -> bool {
    match s[i] {
        Slot::Full { value, .. } => value is Some,
        _ => false,
    }
}

/// The value held by block `i`.
pub open spec fn value_at<T>(s: Seq<Slot<T>>, i: int) -> T
    recommends
        value_present(s, i),
{
    match s[i] {
        Slot::Full { value: Some(v), .. } => v,
        _ => arbitrary(),
    }
}

/// Each layout agrees with its state word: a full block is never marked
/// storage-released and holds its value exactly until the value is destroyed;
/// a shrunk block carries both flags.
pub open spec fn slot_wf<T>(slot: Slot<T>) -> bool {
    match slot {
        Slot::Vacant => true,
        Slot::Full { word, value } => !word::released(word) && (value is Some <==> !word::dropped(
            word,
        )),
        Slot::Shrunk { word } => word::dropped(word) && word::released(word),
    }
}

/// Every block is well-formed.
pub open spec fn blocks_wf<T>(s: Seq<Slot<T>>) -> bool {
    forall|i: int| 0 <= i < s.len() ==> #[trigger] slot_wf(s[i])
}

/// How many blocks are currently allocated.
pub open spec fn live_count<T>(s: Seq<Slot<T>>) -> nat
    decreases s.len(),
{
    if s.len() == 0 {
        0
    } else {
        live_count(s.drop_last()) + (if s.last() is Vacant {
            0nat
        } else {
            1nat
        })
    }
}

/// A fresh block appended: zero observers, no flags, the value in place.
pub open spec fn alloc_step<T>(s: Seq<Slot<T>>, value: T) -> Seq<Slot<T>> {
    s.push(Slot::Full { word: 0, value: Some(value) })
}

/// The state word of block `i` replaced, its layout and value kept.
pub open spec fn with_word_at<T>(s: Seq<Slot<T>>, i: int, w: usize) -> Seq<Slot<T>> {
    s.update(
        i,
        match s[i] {
            Slot::Vacant => Slot::Vacant,
            Slot::Full { value, .. } => Slot::Full { word: w, value },
            Slot::Shrunk { .. } => Slot::Shrunk { word: w },
        },
    )
}

/// The value of block `i` destroyed: the dropped flag set, the storage kept
/// but empty.
pub open spec fn drop_value_step<T>(s: Seq<Slot<T>>, i: int) -> Seq<Slot<T>> {
    s.update(i, Slot::Full { word: word::with_dropped(word_at(s, i)), value: None })
}

/// The release gate: block `i` freed exactly when its value is gone and no
/// observer remains, and everything untouched otherwise.
pub open spec fn release_step<T>(s: Seq<Slot<T>>, i: int) -> Seq<Slot<T>> {
    if word::dropped(word_at(s, i)) && word::count(word_at(s, i)) == 0 {
        s.update(i, Slot::Vacant)
    } else {
        s
    }
}

/// A successful shrink of block `i`: the state-only layout, the
/// storage-released flag recorded.
pub open spec fn shrink_step<T>(s: Seq<Slot<T>>, i: int) -> Seq<Slot<T>> {
    s.update(i, Slot::Shrunk { word: word::with_released(word_at(s, i)) })
}

/// One more observer recorded on block `i`.
pub open spec fn observe_step<T>(s: Seq<Slot<T>>, i: int) -> Seq<Slot<T>> {
    with_word_at(
        s,
        i,
        word::with_count(word_at(s, i), (word::count(word_at(s, i)) + 1) as usize),
    )
}

/// One observer gone from block `i`, then the release gate.
pub open spec fn forget_step<T>(s: Seq<Slot<T>>, i: int) -> Seq<Slot<T>> {
    release_step(
        with_word_at(
            s,
            i,
            word::with_count(word_at(s, i), (word::count(word_at(s, i)) - 1) as usize),
        ),
        i,
    )
}

/// The value of block `i` destroyed, then the release gate, then — if the
/// block survived and the allocator supports it — the shrink in place.
pub open spec fn retire_step<T>(s: Seq<Slot<T>>, i: int, can_shrink: bool) -> Seq<Slot<T>> {
    let s2 = release_step(drop_value_step(s, i), i);
    if is_allocated(s2, i) && can_shrink {
        shrink_step(s2, i)
    } else {
        s2
    }
}

/// The allocation block manager.  `can_shrink` is the capability of the
/// underlying allocator to resize an allocation in place without moving it.
pub struct Heap<T> {
    blocks: Vec<Slot<T>>,
    can_shrink: bool,
}

impl<T> View for Heap<T> {
    type V = Seq<Slot<T>>;

    closed spec fn view(&self) -> Seq<Slot<T>> {
        self.blocks@
    }
}

impl<T> Heap<T> {
    /// Whether the underlying allocator can shrink an allocation in place.
    pub closed spec fn shrink_supported(&self) -> bool {
        self.can_shrink
    }

    /// A fresh manager.  Shrinking in place is a space optimization only:
    /// every contract of this module holds for either capability.
    pub fn new(can_shrink: bool) -> (h: Heap<T>)
        ensures
            h@ == Seq::<Slot<T>>::empty(),
            h.shrink_supported() == can_shrink,
    {
        Heap { blocks: Vec::new(), can_shrink }
    }

    /// Allocates a block holding `{state word, value}` with no observers and
    /// no flags, and returns its handle.  Allocator exhaustion aborts: it is
    /// not a recoverable error, since no caller can continue without the
    /// block.
    pub fn allocate(&mut self, value: T) -> (id: usize)
        ensures
            final(self)@ == alloc_step(old(self)@, value),
            id == old(self)@.len(),
            final(self).shrink_supported() == old(self).shrink_supported(),
    {
        let id = self.blocks.len();
        self.blocks.push(Slot::Full { word: 0, value: Some(value) });
        id
    }

    /// Reads the state word of block `id`.
    pub fn word_of(&self, id: usize) -> (w: usize)
        requires
            is_allocated(self@, id as int),
        ensures
            w == word_at(self@, id as int),
    {
        match &self.blocks[id] {
            Slot::Vacant => unreached(),
            Slot::Full { word, .. } => *word,
            Slot::Shrunk { word } => *word,
        }
    }

    /// Writes the state word of block `id`, keeping its layout and value.
    pub(crate) fn set_word(&mut self, id: usize, w: usize)
        requires
            is_allocated(old(self)@, id as int),
        ensures
            final(self)@ == with_word_at(old(self)@, id as int, w),
            final(self).shrink_supported() == old(self).shrink_supported(),
    {
        let mut slot = Slot::Vacant;
        core::mem::swap(&mut slot, &mut self.blocks[id]);
        let new_slot = match slot {
            Slot::Vacant => unreached(),
            Slot::Full { word: _, value } => Slot::Full { word: w, value },
            Slot::Shrunk { .. } => Slot::Shrunk { word: w },
        };
        self.blocks[id] = new_slot;
        proof {
            assert(final(self)@ =~= with_word_at(old(self)@, id as int, w));
        }
    }

    /// A read-only view of the value of block `id`.
    pub(crate) fn value_ref(&self, id: usize) -> (r: &T)
        requires
            is_allocated(self@, id as int),
            value_present(self@, id as int),
        ensures
            *r == value_at(self@, id as int),
    {
        match &self.blocks[id] {
            Slot::Full { value, .. } => match value {
                Some(v) => v,
                None => unreached(),
            },
            _ => unreached(),
        }
    }

    /// Destructively reads the value of block `id`: moves it out and marks
    /// the value dropped, leaving the (now oversized) storage in place.
    pub(crate) fn take_value(&mut self, id: usize) -> (v: T)
        requires
            is_allocated(old(self)@, id as int),
            value_present(old(self)@, id as int),
        ensures
            v == value_at(old(self)@, id as int),
            final(self)@ == drop_value_step(old(self)@, id as int),
            final(self).shrink_supported() == old(self).shrink_supported(),
    {
        let mut slot = Slot::Vacant;
        core::mem::swap(&mut slot, &mut self.blocks[id]);
        match slot {
            Slot::Full { word, value } => {
                let w1 = word::mark_value_dropped(word);
                self.blocks[id] = Slot::Full { word: w1, value: None };
                proof {
                    assert(final(self)@ =~= drop_value_step(old(self)@, id as int));
                }
                match value {
                    Some(v) => v,
                    None => unreached(),
                }
            },
            _ => unreached(),
        }
    }

    /// The single gate guarding every free: if the value has been destroyed
    /// and no observer remains, frees the block — under whichever layout its
    /// storage-released flag records — and reports it; otherwise reports that
    /// the block is still referenced and does nothing.  Safe to call whenever
    /// the block is allocated.
    pub fn release_if_fully_dead(&mut self, id: usize) -> (r: Release)
        requires
            is_allocated(old(self)@, id as int),
            slot_wf(old(self)@[id as int]),
        ensures
            final(self)@ == release_step(old(self)@, id as int),
            r is Released <==> word::dropped(word_at(old(self)@, id as int)) && word::count(
                word_at(old(self)@, id as int),
            ) == 0,
            final(self).shrink_supported() == old(self).shrink_supported(),
    {
        let w = self.word_of(id);
        if word::value_dropped(w) && word::observer_count(w) == 0 {
            self.blocks[id] = Slot::Vacant;
            proof {
                assert(final(self)@ =~= release_step(old(self)@, id as int));
            }
            Release::Released
        } else {
            Release::StillReferenced
        }
    }

    /// Attempts, in place, to resize block `id` from the full layout down to
    /// the state-only layout, recording the storage-released flag on success.
    /// If the allocator cannot shrink in place, the block keeps its full size
    /// and stays fully valid: the failure costs memory footprint only.
    pub fn try_shrink_to_state_only(&mut self, id: usize) -> (shrunk: bool)
        requires
            is_allocated(old(self)@, id as int),
            old(self)@[id as int] is Full,
            !value_present(old(self)@, id as int),
        ensures
            shrunk == old(self).shrink_supported(),
            final(self)@ == (if old(self).shrink_supported() {
                shrink_step(old(self)@, id as int)
            } else {
                old(self)@
            }),
            final(self).shrink_supported() == old(self).shrink_supported(),
    {
        if self.can_shrink {
            let w = self.word_of(id);
            self.blocks[id] = Slot::Shrunk { word: word::mark_storage_released(w) };
            proof {
                assert(final(self)@ =~= shrink_step(old(self)@, id as int));
            }
            true
        } else {
            false
        }
    }

    /// How many blocks are currently allocated.  Net allocations have
    /// returned to zero exactly when this is zero.
    pub fn allocated_count(&self) -> (n: usize)
        ensures
            n == live_count(self@),
    {
        let mut n: usize = 0;
        let mut i: usize = 0;
        while i < self.blocks.len()
            invariant
                i <= self@.len(),
                n == live_count(self@.take(i as int)),
                n <= i,
            decreases self@.len() - i,
        {
            let occupied = match &self.blocks[i] {
                Slot::Vacant => false,
                _ => true,
            };
            if occupied {
                n = n + 1;
            }
            proof {
                assert(self@.take(i + 1int).drop_last() =~= self@.take(i as int));
                assert(self@.take(i + 1int).last() == self@[i as int]);
            }
            i = i + 1;
        }
        proof {
            assert(self@.take(self@.len() as int) =~= self@);
        }
        n
    }
}

/// Replacing one block with a well-formed one keeps the heap well-formed.
pub proof fn lemma_wf_update<T>(s: Seq<Slot<T>>, i: int, slot: Slot<T>)
    requires
        blocks_wf(s),
        0 <= i < s.len(),
        slot_wf(slot),
    ensures
        blocks_wf(s.update(i, slot)),
{
    assert forall|j: int| 0 <= j < s.update(i, slot).len() implies slot_wf(
        #[trigger] s.update(i, slot)[j],
    ) by {
        if j != i {
            assert(slot_wf(s[j]));
        }
    }
}

/// Appending a block raises the number of allocated blocks by one exactly
/// when the new slot is occupied.
pub proof fn lemma_live_count_push<T>(s: Seq<Slot<T>>, slot: Slot<T>)
    ensures
        live_count(s.push(slot)) == live_count(s) + (if slot is Vacant {
            0nat
        } else {
            1nat
        }),
{
    assert(s.push(slot).drop_last() =~= s);
    assert(s.push(slot).last() == slot);
}

/// Replacing one block changes the number of allocated blocks exactly by the
/// difference in occupancy.
pub proof fn lemma_live_count_update<T>(s: Seq<Slot<T>>, i: int, slot: Slot<T>)
    requires
        0 <= i < s.len(),
    ensures
        live_count(s.update(i, slot)) + (if s[i] is Vacant {
            0nat
        } else {
            1nat
        }) == live_count(s) + (if slot is Vacant {
            0nat
        } else {
            1nat
        }),
    decreases s.len(),
{
    let t = s.update(i, slot);
    if i == s.len() - 1 {
        assert(t.drop_last() =~= s.drop_last());
        assert(t.last() == slot);
    } else {
        assert(t.drop_last() =~= s.drop_last().update(i, slot));
        assert(t.last() == s.last());
        lemma_live_count_update(s.drop_last(), i, slot);
    }
}

/// Recording an observer touches only the count of block `i`: the flags, the
/// value, the layout, every other block and the number of allocated blocks
/// are all kept.
pub proof fn lemma_observe_step_facts<T>(s: Seq<Slot<T>>, i: int)
    requires
        is_allocated(s, i),
        word::count(word_at(s, i)) < word::COUNT_MASK,
    ensures
        ({
            let t = observe_step(s, i);
            &&& t.len() == s.len()
            &&& (forall|j: int| 0 <= j < s.len() && j != i ==> t[j] == s[j])
            &&& is_allocated(t, i)
            &&& word::count(word_at(t, i)) == word::count(word_at(s, i)) + 1
            &&& word::dropped(word_at(t, i)) == word::dropped(word_at(s, i))
            &&& word::released(word_at(t, i)) == word::released(word_at(s, i))
            &&& value_present(t, i) == value_present(s, i)
            &&& (value_present(s, i) ==> value_at(t, i) == value_at(s, i))
            &&& (blocks_wf(s) ==> blocks_wf(t))
            &&& live_count(t) == live_count(s)
        }),
{
    let w = word_at(s, i);
    let t = observe_step(s, i);
    word::lemma_with_count(w, (word::count(w) + 1) as usize);
    if blocks_wf(s) {
        assert(slot_wf(s[i]));
        lemma_wf_update(s, i, t[i]);
    }
    lemma_live_count_update(s, i, t[i]);
}

/// Destroying an observer decrements the count of block `i` and then passes
/// the release gate: the block is freed exactly when the value was already
/// destroyed and this was the last observer — never before, never twice, and
/// the free removes exactly one allocated block.
pub proof fn lemma_forget_step_facts<T>(s: Seq<Slot<T>>, i: int)
    requires
        blocks_wf(s),
        is_allocated(s, i),
        word::count(word_at(s, i)) > 0,
    ensures
        ({
            let t = forget_step(s, i);
            let freed = word::dropped(word_at(s, i)) && word::count(word_at(s, i)) == 1;
            &&& t.len() == s.len()
            &&& (forall|j: int| 0 <= j < s.len() && j != i ==> t[j] == s[j])
            &&& (is_allocated(t, i) <==> !freed)
            &&& (!freed ==> word::count(word_at(t, i)) == word::count(word_at(s, i)) - 1
                && word::dropped(word_at(t, i)) == word::dropped(word_at(s, i))
                && word::released(word_at(t, i)) == word::released(word_at(s, i))
                && value_present(t, i) == value_present(s, i) && (value_present(s, i)
                ==> value_at(t, i) == value_at(s, i)))
            &&& blocks_wf(t)
            &&& live_count(t) + (if freed {
                1nat
            } else {
                0nat
            }) == live_count(s)
        }),
{
    let w = word_at(s, i);
    word::lemma_count_bound(w);
    word::lemma_with_count(w, (word::count(w) - 1) as usize);
    let s1 = with_word_at(s, i, word::with_count(w, (word::count(w) - 1) as usize));
    assert(slot_wf(s[i]));
    lemma_wf_update(s, i, s1[i]);
    lemma_live_count_update(s, i, s1[i]);
    let t = forget_step(s, i);
    if word::dropped(word_at(s1, i)) && word::count(word_at(s1, i)) == 0 {
        lemma_wf_update(s1, i, Slot::Vacant);
        lemma_live_count_update(s1, i, Slot::Vacant);
    }
}

/// Destroying the value of block `i` (the owner's destruction or unwrap)
/// marks the value dropped, frees the block on the spot when no observer
/// remains, and otherwise keeps it allocated for its observers — shrunk to
/// the state-only layout exactly when the allocator supports it — with its
/// observer count intact.  Correctness is identical whether or not the
/// shrink succeeds.
pub proof fn lemma_retire_step_facts<T>(s: Seq<Slot<T>>, i: int, can_shrink: bool)
    requires
        blocks_wf(s),
        is_allocated(s, i),
        value_present(s, i),
        !word::dropped(word_at(s, i)),
    ensures
        ({
            let t = retire_step(s, i, can_shrink);
            let freed = word::count(word_at(s, i)) == 0;
            &&& t.len() == s.len()
            &&& (forall|j: int| 0 <= j < s.len() && j != i ==> t[j] == s[j])
            &&& (is_allocated(t, i) <==> !freed)
            &&& (!freed ==> word::dropped(word_at(t, i)) && !value_present(t, i) && word::count(
                word_at(t, i),
            ) == word::count(word_at(s, i)) && word::released(word_at(t, i)) == can_shrink && (t[i]
                is Shrunk <==> can_shrink))
            &&& blocks_wf(t)
            &&& live_count(t) + (if freed {
                1nat
            } else {
                0nat
            }) == live_count(s)
        }),
{
    let w = word_at(s, i);
    word::lemma_with_dropped(w);
    assert(slot_wf(s[i]));
    let s1 = drop_value_step(s, i);
    lemma_wf_update(s, i, s1[i]);
    lemma_live_count_update(s, i, s1[i]);
    let s2 = release_step(s1, i);
    if word::count(w) == 0 {
        lemma_wf_update(s1, i, Slot::Vacant);
        lemma_live_count_update(s1, i, Slot::Vacant);
    } else {
        if can_shrink {
            word::lemma_with_released(word_at(s2, i));
            lemma_wf_update(s2, i, shrink_step(s2, i)[i]);
            lemma_live_count_update(s2, i, shrink_step(s2, i)[i]);
        }
    }
}

/// Once the value of a block has been destroyed it stays destroyed: no
/// observer event — recording a new observer on any block, or destroying one
/// — clears the dropped flag or brings a value back.  The value's destructor
/// therefore runs at most once, however many observers exist and in whatever
/// order they are destroyed.
pub proof fn lemma_dropped_is_permanent<T>(s: Seq<Slot<T>>, i: int, j: int)
    requires
        blocks_wf(s),
        is_allocated(s, i),
        word::dropped(word_at(s, i)),
        is_allocated(s, j),
    ensures
        word::count(word_at(s, j)) < word::COUNT_MASK && is_allocated(observe_step(s, j), i)
            ==> word::dropped(word_at(observe_step(s, j), i)) && !value_present(
            observe_step(s, j),
            i,
        ),
        word::count(word_at(s, j)) > 0 && is_allocated(forget_step(s, j), i) ==> word::dropped(
            word_at(forget_step(s, j), i),
        ) && !value_present(forget_step(s, j), i),
{
    assert(slot_wf(s[i]));
    if word::count(word_at(s, j)) < word::COUNT_MASK {
        lemma_observe_step_facts(s, j);
        if i != j {
            assert(observe_step(s, j)[i] == s[i]);
        }
    }
    if word::count(word_at(s, j)) > 0 {
        lemma_forget_step_facts(s, j);
        if i != j {
            assert(forget_step(s, j)[i] == s[i]);
        }
    }
}

} // verus!
