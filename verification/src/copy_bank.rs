use vstd::prelude::*;

pub use crate::error::Error;
use crate::index::Index;

verus! {

/// The copy-only specialization of the slot arena: payloads are plain copies
/// with nothing to release, so `get` hands the value out by copy and `free`
/// is a pure metadata update. The slot, generation and free-list behaviour is
/// exactly that of [`crate::bank::Bank`], which this type wraps.
pub struct Bank<T: Copy> {
    inner: crate::bank::Bank<T>,
}

impl<T: Copy> Bank<T> {
    /// The underlying slot arena; the contracts below are stated over it.
    pub closed spec fn as_bank(self) -> crate::bank::Bank<T> {
        self.inner
    }

    /// The internal invariant of the underlying arena.
    pub open spec fn wf(self) -> bool {
        self.as_bank().wf()
    }

    /// Number of slots in the backing table, occupied or free.
    pub open spec fn capacity(self) -> nat {
        self.as_bank().capacity()
    }

    /// Number of occupied slots.
    pub open spec fn len_spec(self) -> nat {
        self.as_bank().len_spec()
    }

    /// Whether a handle is valid for this bank.
    pub open spec fn valid_handle(self, x: Index) -> bool {
        self.as_bank().valid_handle(x)
    }

    /// What a lookup of `x` yields.
    pub open spec fn spec_get(self, x: Index) -> Option<T> {
        self.as_bank().spec_get(x)
    }

    /// A new, empty bank.
    pub fn new() -> (r: Self)
        ensures
            r.wf(),
            r.capacity() == 0,
            r.len_spec() == 0,
    {
        Bank { inner: crate::bank::Bank::new() }
    }

    /// Number of values currently stored in the bank, tracked in O(1).
    #[inline]
    pub fn len(&self) -> (n: usize)
        requires
            self.wf(),
        ensures
            n == self.len_spec(),
    {
        self.inner.len()
    }

    /// Look a valid handle up and return the value by copy; see
    /// [`crate::bank::Bank::get`].
    #[inline]
    pub fn get(&self, x: Index) -> (r: T)
        requires
            self.wf(),
            self.valid_handle(x),
        ensures
            Some(r) == self.spec_get(x),
    {
        self.inner.get_copy(x)
    }

    /// Look a handle up without any precondition; see
    /// [`crate::bank::Bank::try_get`].
    pub fn try_get(&self, x: Index) -> (r: Option<T>)
        requires
            self.wf(),
        ensures
            r == self.spec_get(x),
    {
        match self.inner.try_get(x) {
            Some(v) => Some(*v),
            None => None,
        }
    }

    /// Insert a value; same contract as [`crate::bank::Bank::allocate`].
    pub fn allocate(&mut self, x: T) -> (r: Result<Index, Error>)
        requires
            old(self).wf(),
        ensures
            final(self).wf(),
            match r {
                Ok(h) => crate::bank::Bank::alloc_transition(
                    old(self).as_bank(),
                    final(self).as_bank(),
                    x,
                    h,
                ),
                Err(e) => e == Error::Full && *final(self) == *old(self),
            },
            r is Err <==> old(self).len_spec() == crate::bank::MAX_INDEX,
    {
        self.inner.allocate(x)
    }

    /// Insert the value produced by `f`; same contract as
    /// [`crate::bank::Bank::allocate_with`].
    #[inline]
    pub fn allocate_with<F: FnOnce() -> T>(&mut self, f: F) -> (r: Result<Index, Error>)
        requires
            old(self).wf(),
            call_requires(f, ()),
        ensures
            final(self).wf(),
            match r {
                Ok(h) => exists|v: T|
                    #[trigger] call_ensures(f, (), v) && crate::bank::Bank::alloc_transition(
                        old(self).as_bank(),
                        final(self).as_bank(),
                        v,
                        h,
                    ),
                Err(e) => e == Error::Full && *final(self) == *old(self),
            },
            r is Err <==> old(self).len_spec() == crate::bank::MAX_INDEX,
    {
        self.inner.allocate_with(f)
    }

    /// Release the slot a valid handle refers to; same contract as
    /// [`crate::bank::Bank::free`], with no destructor to run.
    pub fn free(&mut self, x: Index) -> (r: Result<(), Error>)
        requires
            old(self).wf(),
        ensures
            final(self).wf(),
            match r {
                Ok(()) => crate::bank::Bank::free_transition(
                    old(self).as_bank(),
                    final(self).as_bank(),
                    x,
                ),
                Err(e) => *final(self) == *old(self) && match e {
                    Error::InvalidIndex(s) => s == x.slot() && ((x.slot() as int)
                        >= old(self).capacity() as int || !old(self).as_bank().is_occupied(
                        x.slot() as int,
                    )),
                    Error::WrongGeneration(s) => s == x.slot() && (x.slot() as int)
                        < old(self).capacity() as int && old(self).as_bank().is_occupied(
                        x.slot() as int,
                    ) && old(self).as_bank().gen_at(x.slot() as int) != x.gen_tag(),
                    _ => false,
                },
            },
            r is Ok <==> old(self).valid_handle(x),
    {
        self.inner.free(x)
    }
}

} // verus!
