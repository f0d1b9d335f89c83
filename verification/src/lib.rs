//! A single-owner, weak-observable smart pointer.
//!
//! An [`Somr<T>`] is the one strong handle to a heap value; any number of
//! [`Weak<T>`] observers may attempt to read the value while it is alive and
//! can detect, safely, that it has been destroyed, without extending its
//! lifetime.  The value and its bookkeeping live together in one block of a
//! [`Heap<T>`], the explicit block manager: the bookkeeping outlives the
//! value, so the block can shed the value's storage while keeping its state
//! word alive, and is released only when the value is gone and no observer
//! remains.

pub mod handles;
pub mod heap;
pub mod word;

pub use handles::Somr;
pub use handles::Weak;
pub use heap::Heap;
pub use heap::Release;
pub use heap::Slot;
