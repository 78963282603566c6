use vstd::prelude::*;

verus! {

/// The error taxonomy shared by the banks. Every fallible operation reports
/// one of these as an explicit result value; nothing is silently swallowed.
#[derive(Clone, Copy, Debug, PartialEq, Eq, Structural)]
pub enum Error {
    /// The bank has reached the maximum slot count (2^24 - 1 slots).
    Full,
    /// The handle's slot is out of range, or the slot is currently free.
    InvalidIndex(u32),
    /// The handle's generation does not match the slot's current generation:
    /// a stale handle, typically a double free or use after reuse.
    WrongGeneration(u32),
    /// A requested sequence is longer than a handle can record.
    SliceTooBig,
}

} // verus!
