//! The handle types: the single strong owner and its weak observers.
//!
//! At most one [`Somr<T>`] owns the value of a block; it is consumed by
//! exactly one of [`Somr::unwrap`] and [`Somr::destroy`], so the value is
//! destroyed exactly once.  Any number of [`Weak<T>`] handles observe the
//! same block: they can read the value while it is alive and detect its
//! absence afterwards, and never extend its lifetime.  Every handle carries
//! the address (here: the identifier) of its block in the explicit
//! [`Heap<T>`]; each operation takes the heap it was created in.

use crate::heap::alloc_step;
use crate::heap::blocks_wf;
use crate::heap::forget_step;
use crate::heap::is_allocated;
use crate::heap::lemma_forget_step_facts;
use crate::heap::lemma_live_count_push;
use crate::heap::lemma_observe_step_facts;
use crate::heap::lemma_retire_step_facts;
use crate::heap::lemma_wf_update;
use crate::heap::observe_step;
use crate::heap::retire_step;
use crate::heap::value_at;
use crate::heap::value_present;
use crate::heap::with_word_at;
use crate::heap::word_at;
use crate::heap::Heap;
use crate::heap::Release;
use crate::heap::Slot;
use crate::word;
use core::marker::PhantomData;
use vstd::prelude::*;

verus! {

/// The unique strong handle: it owns the value of one block and is consumed
/// by exactly one of [`Somr::unwrap`] and [`Somr::destroy`].
pub struct Somr<T> {
    index: usize,
    value_type: PhantomData<T>,
}

/// A non-owning observer of a block: it can attempt to read the value while
/// it is alive and detect its absence afterwards, without extending the
/// value's lifetime.
pub struct Weak<T> {
    index: usize,
    value_type: PhantomData<T>,
}

impl<T> Somr<T> {
    /// The block this handle owns.
    pub closed spec fn id(&self) -> int {
        self.index as int
    }

    /// The handle is live: its block is allocated and still holds the value.
    pub open spec fn valid(&self, s: Seq<Slot<T>>) -> bool {
        &&& is_allocated(s, self.id())
        &&& value_present(s, self.id())
        &&& !word::dropped(word_at(s, self.id()))
    }

    /// Allocates a block for `val` and returns the one owner handle to it.
    pub fn new(heap: &mut Heap<T>, val: T) -> (this: Somr<T>)
        ensures
            final(heap)@ == alloc_step(old(heap)@, val),
            this.id() == old(heap)@.len(),
            this.valid(final(heap)@),
            value_at(final(heap)@, this.id()) == val,
            word::count(word_at(final(heap)@, this.id())) == 0,
            blocks_wf(old(heap)@) ==> blocks_wf(final(heap)@),
            final(heap).shrink_supported() == old(heap).shrink_supported(),
    {
        let id = heap.allocate(val);
        proof {
            word::lemma_fresh_word();
            if blocks_wf(old(heap)@) {
                assert forall|j: int| 0 <= j < final(heap)@.len() implies crate::heap::slot_wf(
                    #[trigger] final(heap)@[j],
                ) by {
                    if j < old(heap)@.len() {
                        assert(crate::heap::slot_wf(old(heap)@[j]));
                    }
                }
            }
        }
        Somr { index: id, value_type: PhantomData }
    }

    /// Derives a new observer of this owner's block: increments the block's
    /// observer count and returns a weak handle aliasing the same block.  A
    /// count about to overflow its field is a fatal condition, not a silent
    /// wrap, and is excluded here; everything but the count is untouched.
    pub fn to_weak(this: &Somr<T>, heap: &mut Heap<T>) -> (w: Weak<T>)
        requires
            this.valid(old(heap)@),
            word::count(word_at(old(heap)@, this.id())) < word::COUNT_MASK,
        ensures
            w.id() == this.id(),
            final(heap)@ == observe_step(old(heap)@, this.id()),
            this.valid(final(heap)@),
            w.valid(final(heap)@),
            value_at(final(heap)@, this.id()) == value_at(old(heap)@, this.id()),
            word::count(word_at(final(heap)@, this.id())) == word::count(
                word_at(old(heap)@, this.id()),
            ) + 1,
            blocks_wf(old(heap)@) ==> blocks_wf(final(heap)@),
            final(heap).shrink_supported() == old(heap).shrink_supported(),
    {
        let w = heap.word_of(this.index);
        let w1 = word::increment_observers(w);
        heap.set_word(this.index, w1);
        proof {
            lemma_observe_step_facts(old(heap)@, this.id());
        }
        Weak { index: this.index, value_type: PhantomData }
    }

    /// Read access to the owned value: an owner is only ever live.
    pub fn borrow<'a>(this: &Somr<T>, heap: &'a Heap<T>) -> (r: &'a T)
        requires
            this.valid(heap@),
        ensures
            *r == value_at(heap@, this.id()),
    {
        heap.value_ref(this.index)
    }

    /// Consumes the owner and moves the value out of its block, marking the
    /// value dropped.  If no observer remains the block is freed on the spot;
    /// otherwise it stays allocated for its observers and the shrink to the
    /// state-only layout is attempted.
    pub fn unwrap(this: Somr<T>, heap: &mut Heap<T>) -> (val: T)
        requires
            blocks_wf(old(heap)@),
            this.valid(old(heap)@),
        ensures
            val == value_at(old(heap)@, this.id()),
            final(heap)@ == retire_step(
                old(heap)@,
                this.id(),
                old(heap).shrink_supported(),
            ),
            blocks_wf(final(heap)@),
            final(heap).shrink_supported() == old(heap).shrink_supported(),
    {
        proof {
            lemma_retire_step_facts(old(heap)@, this.id(), old(heap).shrink_supported());
        }
        let id = this.index;
        let val = heap.take_value(id);
        proof {
            assert(crate::heap::slot_wf(old(heap)@[this.id()]));
            word::lemma_with_dropped(word_at(old(heap)@, this.id()));
        }
        match heap.release_if_fully_dead(id) {
            Release::Released => val,
            Release::StillReferenced => {
                let _ = heap.try_shrink_to_state_only(id);
                val
            },
        }
    }

    /// Destroys the owner without reading the value: runs the value's
    /// destructor, marks the value dropped, and then releases or shrinks the
    /// block exactly as [`Somr::unwrap`] does.  Exactly one of the two ever
    /// happens to an owner, since both consume it.
    pub fn destroy(this: Somr<T>, heap: &mut Heap<T>)
        requires
            blocks_wf(old(heap)@),
            this.valid(old(heap)@),
        ensures
            final(heap)@ == retire_step(
                old(heap)@,
                this.id(),
                old(heap).shrink_supported(),
            ),
            blocks_wf(final(heap)@),
            final(heap).shrink_supported() == old(heap).shrink_supported(),
    {
        proof {
            lemma_retire_step_facts(old(heap)@, this.id(), old(heap).shrink_supported());
        }
        let id = this.index;
        {
            // The value's destructor runs at the end of this scope.
            let _dead = heap.take_value(id);
        }
        proof {
            assert(crate::heap::slot_wf(old(heap)@[this.id()]));
            word::lemma_with_dropped(word_at(old(heap)@, this.id()));
        }
        match heap.release_if_fully_dead(id) {
            Release::Released => {},
            Release::StillReferenced => {
                let _ = heap.try_shrink_to_state_only(id);
            },
        }
    }
}

impl<T> Weak<T> {
    /// The block this handle observes.
    pub closed spec fn id(&self) -> int {
        self.index as int
    }

    /// The observer is counted: its block is allocated and the observer count
    /// covers it.
    pub open spec fn valid(&self, s: Seq<Slot<T>>) -> bool {
        &&& is_allocated(s, self.id())
        &&& word::count(word_at(s, self.id())) > 0
    }

    /// Attempts to read the observed value: while the value is alive, applies
    /// `func` to a read-only, callback-scoped view of it and returns the
    /// result; once the value has been destroyed, returns `None`.  The value
    /// being gone is an expected outcome, never a failure.
    pub fn try_get<Out, F: Fn(&T) -> Out>(this: &Self, heap: &Heap<T>, func: F) -> (r: Option<Out>)
        requires
            blocks_wf(heap@),
            this.valid(heap@),
            !word::dropped(word_at(heap@, this.id())) ==> call_requires(
                func,
                (&value_at(heap@, this.id()),),
            ),
        ensures
            r is Some <==> !word::dropped(word_at(heap@, this.id())),
            r matches Some(out) ==> call_ensures(func, (&value_at(heap@, this.id()),), out),
    {
        let w = heap.word_of(this.index);
        if !word::value_dropped(w) {
            proof {
                assert(crate::heap::slot_wf(heap@[this.id()]));
            }
            let v = heap.value_ref(this.index);
            Some(func(v))
        } else {
            None
        }
    }

    /// Whether the observed value has been destroyed; equivalent to
    /// [`Weak::try_get`] returning `None`.
    pub fn is_dropped(this: &Self, heap: &Heap<T>) -> (r: bool)
        requires
            blocks_wf(heap@),
            this.valid(heap@),
        ensures
            r == word::dropped(word_at(heap@, this.id())),
    {
        Self::try_get(this, heap, |_v: &T| ()).is_none()
    }

    /// Destroys this observer: decrements the block's observer count, then
    /// passes the release gate — the block is freed here exactly when the
    /// value is already gone and this was its last observer, under whichever
    /// layout (full or state-only) is currently recorded, and without ever
    /// touching the value's destructor.
    pub fn destroy(this: Weak<T>, heap: &mut Heap<T>)
        requires
            blocks_wf(old(heap)@),
            this.valid(old(heap)@),
        ensures
            final(heap)@ == forget_step(old(heap)@, this.id()),
            blocks_wf(final(heap)@),
            final(heap).shrink_supported() == old(heap).shrink_supported(),
    {
        proof {
            lemma_forget_step_facts(old(heap)@, this.id());
        }
        let w = heap.word_of(this.index);
        let w1 = word::decrement_observers(w);
        proof {
            assert(crate::heap::slot_wf(old(heap)@[this.id()]));
            let s1 = with_word_at(old(heap)@, this.id(), w1);
            lemma_wf_update(old(heap)@, this.id(), s1[this.id()]);
        }
        heap.set_word(this.index, w1);
        let _ = heap.release_if_fully_dead(this.index);
    }
}

/// The accounting invariant of one block against its live handles: while the
/// owner or at least one observer survives, the block is allocated, its
/// observer count equals the number of live observers, its dropped flag
/// records the owner's end, and it holds the value exactly while the owner
/// lives; once neither survives, the block is freed.
pub open spec fn block_inv<T>(s: Seq<Slot<T>>, i: int, owner_live: bool, observers: nat) -> bool {
    if owner_live || observers > 0 {
        &&& is_allocated(s, i)
        &&& word::count(word_at(s, i)) == observers
        &&& word::dropped(word_at(s, i)) == !owner_live
        &&& value_present(s, i) == owner_live
    } else {
        0 <= i < s.len() && !is_allocated(s, i)
    }
}

/// However the handles of a block end — observers destroyed before or after
/// the owner, in any order, interleaved with reads — every event preserves
/// [`block_inv`], and the block is freed exactly by the event that ends the
/// last handle: never before it, never twice, and that one free returns
/// exactly one block.  By induction over any sequence of events, net
/// allocations return to zero once every handle is gone.
pub proof fn lemma_block_protocol<T>(
    s: Seq<Slot<T>>,
    val: T,
    i: int,
    owner_live: bool,
    observers: nat,
    can_shrink: bool,
)
    requires
        blocks_wf(s),
    ensures
        // Somr::new establishes the invariant for the fresh block.
        block_inv(alloc_step(s, val), s.len() as int, true, 0),
        crate::heap::live_count(alloc_step(s, val)) == crate::heap::live_count(s) + 1,
        // Somr::to_weak: one more observer, nothing freed.
        block_inv(s, i, true, observers) && observers < word::COUNT_MASK ==> block_inv(
            observe_step(s, i),
            i,
            true,
            (observers + 1) as nat,
        ) && crate::heap::live_count(observe_step(s, i)) == crate::heap::live_count(s),
        // Somr::unwrap or Somr::destroy: the owner ends; the block is freed
        // exactly when no observer remains, whether or not the shrink is
        // supported.
        block_inv(s, i, true, observers) ==> block_inv(
            retire_step(s, i, can_shrink),
            i,
            false,
            observers,
        ) && crate::heap::live_count(retire_step(s, i, can_shrink)) + (if observers == 0 {
            1nat
        } else {
            0nat
        }) == crate::heap::live_count(s),
        // Weak::destroy: one observer ends; the block is freed exactly when
        // it was the last handle of all.
        block_inv(s, i, owner_live, observers) && observers > 0 ==> block_inv(
            forget_step(s, i),
            i,
            owner_live,
            (observers - 1) as nat,
        ) && crate::heap::live_count(forget_step(s, i)) + (if !owner_live && observers == 1 {
            1nat
        } else {
            0nat
        }) == crate::heap::live_count(s),
{
    word::lemma_fresh_word();
    lemma_live_count_push(s, alloc_step(s, val)[s.len() as int]);
    if block_inv(s, i, true, observers) && observers < word::COUNT_MASK {
        lemma_observe_step_facts(s, i);
    }
    if block_inv(s, i, true, observers) {
        lemma_retire_step_facts(s, i, can_shrink);
    }
    if block_inv(s, i, owner_live, observers) && observers > 0 {
        lemma_forget_step_facts(s, i);
    }
}

/// Unwrapping a freshly created owner yields exactly the value it was
/// created with; with no observer yet recorded, the block is freed on the
/// spot and net allocations return to where they started.
pub proof fn lemma_new_then_unwrap<T>(s: Seq<Slot<T>>, val: T, can_shrink: bool)
    requires
        blocks_wf(s),
    ensures
        ({
            let i = s.len() as int;
            let s1 = alloc_step(s, val);
            &&& value_present(s1, i) && value_at(s1, i) == val
            &&& !word::dropped(word_at(s1, i))
            &&& word::count(word_at(s1, i)) == 0
            &&& !is_allocated(retire_step(s1, i, can_shrink), i)
            &&& crate::heap::live_count(retire_step(s1, i, can_shrink)) == crate::heap::live_count(
                s,
            )
        }),
{
    let i = s.len() as int;
    let s1 = alloc_step(s, val);
    word::lemma_fresh_word();
    lemma_live_count_push(s, s1[i]);
    assert forall|j: int| 0 <= j < s1.len() implies crate::heap::slot_wf(#[trigger] s1[j]) by {
        if j < s.len() {
            assert(crate::heap::slot_wf(s[j]));
        }
    }
    lemma_retire_step_facts(s1, i, can_shrink);
}

/// A weak observer derived before the owner's destruction: afterwards the
/// block is still allocated for the observer, which reports the value gone
/// (`is_dropped` true, `try_get` absent), and the observer's own destruction
/// then frees the block — exactly once, at the later of the two ends, with
/// net allocations returning to where they started.
pub proof fn lemma_weak_survives_owner<T>(s: Seq<Slot<T>>, val: T, can_shrink: bool)
    requires
        blocks_wf(s),
    ensures
        ({
            let i = s.len() as int;
            let s1 = alloc_step(s, val);  // Somr::new
            let s2 = observe_step(s1, i);  // Somr::to_weak
            let s3 = retire_step(s2, i, can_shrink);  // Somr::destroy
            let s4 = forget_step(s3, i);  // Weak::destroy
            &&& value_present(s2, i) && value_at(s2, i) == val && !word::dropped(word_at(s2, i))
            &&& is_allocated(s3, i)
            &&& word::dropped(word_at(s3, i))
            &&& !value_present(s3, i)
            &&& word::count(word_at(s3, i)) == 1
            &&& !is_allocated(s4, i)
            &&& crate::heap::live_count(s4) == crate::heap::live_count(s)
        }),
{
    let i = s.len() as int;
    let s1 = alloc_step(s, val);
    let s2 = observe_step(s1, i);
    let s3 = retire_step(s2, i, can_shrink);
    word::lemma_fresh_word();
    word::lemma_count_mask_positive();
    lemma_live_count_push(s, s1[i]);
    assert forall|j: int| 0 <= j < s1.len() implies crate::heap::slot_wf(#[trigger] s1[j]) by {
        if j < s.len() {
            assert(crate::heap::slot_wf(s[j]));
        }
    }
    lemma_observe_step_facts(s1, i);
    lemma_retire_step_facts(s2, i, can_shrink);
    lemma_forget_step_facts(s3, i);
}

} // verus!
