//! A slot arena: values of one type stored behind stable, copyable 32-bit
//! handles, with O(1) insertion and removal, reuse of freed slots, and
//! detection of stale handles (use of a handle after its slot was freed or
//! reused).
//!
//! The core is [`bank::Bank`], a growable table of slots. Each slot is either
//! occupied by one live value or free; freed slots are threaded into an
//! intrusive free list and reused before the table grows. A per-slot
//! generation counter lets `try_get` reject handles that outlived their slot.
//!
//! [`copy_bank::Bank`] is the copy-only specialization, and
//! [`array_bank::ArrayBank`] stores short sequences in per-length size
//! classes behind a single handle type.
//!
//! Term stores built on the same handle discipline live in [`coc_terms`] and
//! [`soa_term`], and [`avl`] holds a balanced search tree of plain keys.

pub mod array_bank;
pub mod avl;
pub mod bank;
pub mod coc_terms;
pub mod copy_bank;
pub mod error;
pub mod index;
pub mod soa_term;
