use vstd::prelude::*;

use crate::bank::Bank;
use crate::bank::MAX_INDEX;
pub use crate::error::Error;
use crate::index::Index;

verus! {

/// A handle into an [`ArrayBank`]: a slot handle together with the length of
/// the stored sequence. The length is never mutated after allocation and is
/// authoritative for dispatch: it decides which internal size class the
/// handle refers to (length 0 refers to no storage at all).
#[derive(Clone, Copy, PartialEq, Eq, Hash, Debug, Structural)]
pub struct ArrayIndex {
    index: Index,
    length: u32,
}

impl ArrayIndex {
    /// The handle into the size class this length dispatches to.
    pub closed spec fn handle(self) -> Index {
        self.index
    }

    /// The length recorded at allocation.
    pub closed spec fn len_tag(self) -> u32 {
        self.length
    }

    /// The handle into the size class this length dispatches to.
    #[inline]
    pub fn index(self) -> (r: Index)
        ensures
            r == self.handle(),
    {
        self.index
    }

    /// The length recorded at allocation.
    #[inline]
    pub fn length(self) -> (r: u32)
        ensures
            r == self.len_tag(),
    {
        self.length
    }
}

/// A small-array arena: stores variable-length sequences of copyable values,
/// without a heap allocation per sequence for lengths up to 3. Length 0 is
/// special-cased and stores nothing; lengths 1 to 3 go to a fixed-size group
/// of that exact length; longer sequences go to a heap-backed buffer in the
/// catch-all class. All four classes are independent [`Bank`] instances
/// behind the single handle type [`ArrayIndex`].
pub struct ArrayBank<T: Copy> {
    ones: Bank<[T; 1]>,
    twos: Bank<[T; 2]>,
    threes: Bank<[T; 3]>,
    big: Bank<Vec<T>>,
}

impl<T: Copy> ArrayBank<T> {
    /// The internal invariant: each size class is a well-formed bank.
    pub closed spec fn wf(self) -> bool {
        &&& self.ones.wf()
        &&& self.twos.wf()
        &&& self.threes.wf()
        &&& self.big.wf()
    }

    /// What a lookup of `h` yields: the stored sequence when `h` is valid in
    /// the size class its length dispatches to, nothing otherwise. A handle
    /// of length 0 always yields the empty sequence.
    pub closed spec fn spec_get_seq(self, h: ArrayIndex) -> Option<Seq<T>> {
        if h.len_tag() == 0 {
            Some(Seq::empty())
        } else if h.len_tag() == 1 {
            match self.ones.spec_get(h.handle()) {
                Some(a) => Some(a@),
                None => None,
            }
        } else if h.len_tag() == 2 {
            match self.twos.spec_get(h.handle()) {
                Some(a) => Some(a@),
                None => None,
            }
        } else if h.len_tag() == 3 {
            match self.threes.spec_get(h.handle()) {
                Some(a) => Some(a@),
                None => None,
            }
        } else {
            match self.big.spec_get(h.handle()) {
                Some(v) => if v@.len() == h.len_tag() {
                    Some(v@)
                } else {
                    None
                },
                None => None,
            }
        }
    }

    /// Whether `h` can be looked up at all.
    pub open spec fn valid_handle(self, h: ArrayIndex) -> bool {
        self.spec_get_seq(h) is Some
    }

    /// Number of sequences of nonzero length currently stored.
    pub closed spec fn len_spec(self) -> nat {
        self.ones.len_spec() + self.twos.len_spec() + self.threes.len_spec()
            + self.big.len_spec()
    }

    /// Whether the size class that sequences of length `l` dispatch to is at
    /// its maximum slot count (length 0 dispatches to no class at all).
    pub closed spec fn class_at_max(self, l: nat) -> bool {
        if l == 0 {
            false
        } else if l == 1 {
            self.ones.len_spec() == MAX_INDEX
        } else if l == 2 {
            self.twos.len_spec() == MAX_INDEX
        } else if l == 3 {
            self.threes.len_spec() == MAX_INDEX
        } else {
            self.big.len_spec() == MAX_INDEX
        }
    }

    /// A new, empty arena.
    pub fn new() -> (r: Self)
        ensures
            r.wf(),
            r.len_spec() == 0,
    {
        ArrayBank { ones: Bank::new(), twos: Bank::new(), threes: Bank::new(), big: Bank::new() }
    }

    /// Number of sequences of nonzero length currently stored (allocations of
    /// length 0 occupy no storage and are not counted).
    pub fn len(&self) -> (n: usize)
        requires
            self.wf(),
        ensures
            n == self.len_spec(),
    {
        self.ones.len() + self.twos.len() + self.threes.len() + self.big.len()
    }

    /// Store a copy of `xs`, dispatched by length: length 0 stores nothing
    /// and returns a sentinel handle; lengths 1 to 3 go to the fixed-size
    /// class of that length; longer sequences are copied into a heap-backed
    /// buffer. Fails with `SliceTooBig` when the length does not fit the
    /// handle's 32-bit length field, and with `Full` when the dispatched
    /// class is at its maximum slot count. Every other stored sequence is
    /// untouched, whatever the outcome.
    pub fn allocate(&mut self, xs: &[T]) -> (r: Result<ArrayIndex, Error>)
        requires
            old(self).wf(),
        ensures
            final(self).wf(),
            match r {
                Ok(h) => {
                    &&& h.len_tag() == xs@.len()
                    &&& final(self).spec_get_seq(h) == Some(xs@)
                    &&& final(self).len_spec() == old(self).len_spec() + (if xs@.len() == 0 {
                        0int
                    } else {
                        1int
                    })
                    &&& forall|h2: ArrayIndex|
                        old(self).spec_get_seq(h2) is Some && h2 != h
                            ==> #[trigger] final(self).spec_get_seq(h2) == old(self).spec_get_seq(
                            h2,
                        )
                },
                Err(e) => *final(self) == *old(self) && ((e == Error::SliceTooBig && xs@.len()
                    > u32::MAX) || (e == Error::Full && xs@.len() <= u32::MAX
                    && old(self).class_at_max(xs@.len()))),
            },
            r is Err <==> (xs@.len() > u32::MAX || old(self).class_at_max(xs@.len())),
    {
        let n = xs.len();
        if n > u32::MAX as usize {
            return Err(Error::SliceTooBig);
        }
        if n == 0 {
            let h = ArrayIndex { index: Index::from_u32(0), length: 0 };
            proof {
                assert(xs@ =~= Seq::<T>::empty());
            }
            return Ok(h);
        }
        if n == 1 {
            let a = [xs[0]];
            match self.ones.allocate(a) {
                Ok(hi) => {
                    let h = ArrayIndex { index: hi, length: 1 };
                    proof {
                        crate::bank::lemma_allocate_round_trip(old(self).ones, self.ones, a, hi);
                        assert(a@ =~= xs@);
                        assert forall|h2: ArrayIndex|
                            old(self).spec_get_seq(h2) is Some && h2 != h implies #[trigger] self
                            .spec_get_seq(h2) == old(self).spec_get_seq(h2) by {
                            if h2.len_tag() == 1 {
                                assert(h2.handle() != hi);
                                crate::bank::lemma_allocate_preserves_other_handles(
                                    old(self).ones,
                                    self.ones,
                                    a,
                                    hi,
                                    h2.handle(),
                                );
                            }
                        }
                    }
                    Ok(h)
                },
                Err(e) => Err(e),
            }
        } else if n == 2 {
            let a = [xs[0], xs[1]];
            match self.twos.allocate(a) {
                Ok(hi) => {
                    let h = ArrayIndex { index: hi, length: 2 };
                    proof {
                        crate::bank::lemma_allocate_round_trip(old(self).twos, self.twos, a, hi);
                        assert(a@ =~= xs@);
                        assert forall|h2: ArrayIndex|
                            old(self).spec_get_seq(h2) is Some && h2 != h implies #[trigger] self
                            .spec_get_seq(h2) == old(self).spec_get_seq(h2) by {
                            if h2.len_tag() == 2 {
                                assert(h2.handle() != hi);
                                crate::bank::lemma_allocate_preserves_other_handles(
                                    old(self).twos,
                                    self.twos,
                                    a,
                                    hi,
                                    h2.handle(),
                                );
                            }
                        }
                    }
                    Ok(h)
                },
                Err(e) => Err(e),
            }
        } else if n == 3 {
            let a = [xs[0], xs[1], xs[2]];
            match self.threes.allocate(a) {
                Ok(hi) => {
                    let h = ArrayIndex { index: hi, length: 3 };
                    proof {
                        crate::bank::lemma_allocate_round_trip(
                            old(self).threes,
                            self.threes,
                            a,
                            hi,
                        );
                        assert(a@ =~= xs@);
                        assert forall|h2: ArrayIndex|
                            old(self).spec_get_seq(h2) is Some && h2 != h implies #[trigger] self
                            .spec_get_seq(h2) == old(self).spec_get_seq(h2) by {
                            if h2.len_tag() == 3 {
                                assert(h2.handle() != hi);
                                crate::bank::lemma_allocate_preserves_other_handles(
                                    old(self).threes,
                                    self.threes,
                                    a,
                                    hi,
                                    h2.handle(),
                                );
                            }
                        }
                    }
                    Ok(h)
                },
                Err(e) => Err(e),
            }
        } else {
            let buf = vstd::slice::slice_to_vec(xs);
            let ghost bufv = buf;
            match self.big.allocate(buf) {
                Ok(hi) => {
                    let h = ArrayIndex { index: hi, length: n as u32 };
                    proof {
                        crate::bank::lemma_allocate_round_trip(old(self).big, self.big, bufv, hi);
                        assert(h.len_tag() >= 4);
                        assert forall|h2: ArrayIndex|
                            old(self).spec_get_seq(h2) is Some && h2 != h implies #[trigger] self
                            .spec_get_seq(h2) == old(self).spec_get_seq(h2) by {
                            if h2.len_tag() >= 4 {
                                if h2.handle() == hi {
                                    // the class handed out a slot that held nothing before
                                    assert(old(self).big.spec_get(hi) is None);
                                } else {
                                    crate::bank::lemma_allocate_preserves_other_handles(
                                        old(self).big,
                                        self.big,
                                        bufv,
                                        hi,
                                        h2.handle(),
                                    );
                                }
                            }
                        }
                    }
                    Ok(h)
                },
                Err(e) => Err(e),
            }
        }
    }

    /// Look a valid handle up and return a copy of the stored sequence;
    /// length 0 returns the empty sequence without touching any class.
    pub fn get(&self, h: ArrayIndex) -> (r: Vec<T>)
        requires
            self.wf(),
            self.valid_handle(h),
        ensures
            Some(r@) == self.spec_get_seq(h),
    {
        let l = h.length;
        if l == 0 {
            let r: Vec<T> = Vec::new();
            proof {
                assert(r@ =~= Seq::<T>::empty());
            }
            r
        } else if l == 1 {
            let a = self.ones.get(h.index);
            let r = vec![a[0]];
            proof {
                assert(r@ =~= a@);
            }
            r
        } else if l == 2 {
            let a = self.twos.get(h.index);
            let r = vec![a[0], a[1]];
            proof {
                assert(r@ =~= a@);
            }
            r
        } else if l == 3 {
            let a = self.threes.get(h.index);
            let r = vec![a[0], a[1], a[2]];
            proof {
                assert(r@ =~= a@);
            }
            r
        } else {
            let v = self.big.get(h.index);
            let mut r: Vec<T> = Vec::new();
            let mut i: usize = 0;
            while i < v.len()
                invariant
                    i <= v.len(),
                    r@ =~= v@.take(i as int),
                decreases v.len() - i,
            {
                r.push(v[i]);
                i = i + 1;
            }
            proof {
                assert(r@ =~= v@);
            }
            r
        }
    }

    /// Look a handle up without any precondition: yields nothing when the
    /// dispatched class rejects the slot handle (out of range, free, or a
    /// stale generation).
    pub fn try_get(&self, h: ArrayIndex) -> (r: Option<Vec<T>>)
        requires
            self.wf(),
        ensures
            match r {
                Some(v) => self.spec_get_seq(h) == Some(v@),
                None => self.spec_get_seq(h) is None,
            },
    {
        let l = h.length;
        let present = if l == 0 {
            true
        } else if l == 1 {
            self.ones.try_get(h.index).is_some()
        } else if l == 2 {
            self.twos.try_get(h.index).is_some()
        } else if l == 3 {
            self.threes.try_get(h.index).is_some()
        } else {
            // the length tag is authoritative: a stored buffer of another
            // length does not belong to this handle
            match self.big.try_get(h.index) {
                Some(v) => v.len() == l as usize,
                None => false,
            }
        };
        if present {
            Some(self.get(h))
        } else {
            None
        }
    }

    /// Release the storage a valid handle refers to, dispatched by length;
    /// freeing a length-0 handle is a no-op that always succeeds. A failed
    /// free performs no mutation and reports the dispatched class's reason.
    pub fn free(&mut self, h: ArrayIndex) -> (r: Result<(), Error>)
        requires
            old(self).wf(),
        ensures
            final(self).wf(),
            r is Ok <==> (h.len_tag() == 0 || old(self).valid_handle(h)),
            match r {
                Ok(()) => {
                    &&& (h.len_tag() == 0 ==> *final(self) == *old(self))
                    &&& (h.len_tag() != 0 ==> {
                        &&& final(self).spec_get_seq(h) is None
                        &&& final(self).len_spec() + 1 == old(self).len_spec()
                    })
                    &&& forall|h2: ArrayIndex|
                        old(self).spec_get_seq(h2) is Some && h2 != h
                            ==> #[trigger] final(self).spec_get_seq(h2) == old(self).spec_get_seq(
                            h2,
                        )
                },
                Err(_) => *final(self) == *old(self),
            },
    {
        let l = h.length;
        if l == 0 {
            return Ok(());
        }
        if l == 1 {
            let r = self.ones.free(h.index);
            proof {
                if r is Ok {
                    assert forall|h2: ArrayIndex|
                        old(self).spec_get_seq(h2) is Some && h2 != h implies #[trigger] self
                        .spec_get_seq(h2) == old(self).spec_get_seq(h2) by {
                        if h2.len_tag() == 1 {
                            assert(h2.handle() != h.handle());
                            crate::bank::lemma_free_preserves_other_handles(
                                old(self).ones,
                                self.ones,
                                h.handle(),
                                h2.handle(),
                            );
                        }
                    }
                }
            }
            r
        } else if l == 2 {
            let r = self.twos.free(h.index);
            proof {
                if r is Ok {
                    assert forall|h2: ArrayIndex|
                        old(self).spec_get_seq(h2) is Some && h2 != h implies #[trigger] self
                        .spec_get_seq(h2) == old(self).spec_get_seq(h2) by {
                        if h2.len_tag() == 2 {
                            assert(h2.handle() != h.handle());
                            crate::bank::lemma_free_preserves_other_handles(
                                old(self).twos,
                                self.twos,
                                h.handle(),
                                h2.handle(),
                            );
                        }
                    }
                }
            }
            r
        } else if l == 3 {
            let r = self.threes.free(h.index);
            proof {
                if r is Ok {
                    assert forall|h2: ArrayIndex|
                        old(self).spec_get_seq(h2) is Some && h2 != h implies #[trigger] self
                        .spec_get_seq(h2) == old(self).spec_get_seq(h2) by {
                        if h2.len_tag() == 3 {
                            assert(h2.handle() != h.handle());
                            crate::bank::lemma_free_preserves_other_handles(
                                old(self).threes,
                                self.threes,
                                h.handle(),
                                h2.handle(),
                            );
                        }
                    }
                }
            }
            r
        } else {
            // the length tag is authoritative: refuse to free through a
            // handle whose tag does not match the stored buffer's length
            let tag_matches = match self.big.try_get(h.index) {
                Some(v) => v.len() == l as usize,
                None => true,  // the class itself will reject the handle
            };
            if !tag_matches {
                return Err(Error::InvalidIndex(h.index.index() as u32));
            }
            let r = self.big.free(h.index);
            proof {
                if r is Ok {
                    assert forall|h2: ArrayIndex|
                        old(self).spec_get_seq(h2) is Some && h2 != h implies #[trigger] self
                        .spec_get_seq(h2) == old(self).spec_get_seq(h2) by {
                        if h2.len_tag() >= 4 && h2.handle() != h.handle() {
                            crate::bank::lemma_free_preserves_other_handles(
                                old(self).big,
                                self.big,
                                h.handle(),
                                h2.handle(),
                            );
                        }
                    }
                }
            }
            r
        }
    }
}

} // verus!
