use vstd::prelude::*;
use vstd::seq_lib::*;
use vstd::set_lib::*;

pub use crate::error::Error;
use crate::index::{lemma_pack_unpack, Index};

verus! {

/// The per-slot generation counter type: one byte, wrapping on overflow.
pub type Generation = u8;

/// Out of a handle's 32 bits, 24 are for the slot and 8 for the generation,
/// and the slot count never exceeds this bound.
pub const MAX_INDEX: usize = 0xFF_FFFF;

/// One storage position of the backing table: either occupied by a live
/// value, or free and holding the position of the next free slot (negative
/// means end of the free list).
enum Slot<T> {
    Full(T),
    Empty(i32),
}

/// A slot arena. Values are inserted with [`Bank::allocate`], which returns a
/// stable handle; freed slots are threaded into an intrusive free list and
/// reused by later allocations before the table grows.
///
/// The generation tag is one byte and wraps on overflow: a handle that
/// outlives 256 frees of its slot can in principle alias a newer occupant.
/// The contracts below speak of the stored generation, so this choice is
/// visible in them (`wrap_inc`), not hidden.
pub struct Bank<T> {
    data: Vec<Slot<T>>,
    /// Position of the head of the free list; negative means the list is empty.
    last_empty: i32,
    /// The generation to stamp on the next handle issued for each slot.
    generation: Vec<Generation>,
    /// Number of free slots in `data`.
    available_slots: usize,
    /// The free slots in the order they are threaded, head last.
    free_list: Ghost<Seq<int>>,
}

/// A generation counter incremented by one, wrapping on overflow.
pub open spec fn wrap_inc(g: Generation) -> Generation {
    if g == 255 {
        0
    } else {
        (g + 1) as Generation
    }
}

impl<T> Bank<T> {
    /// Number of slots in the backing table, occupied or free.
    pub closed spec fn capacity(self) -> nat {
        self.data@.len()
    }

    /// Whether slot `i` currently holds a live value.
    pub closed spec fn is_occupied(self, i: int) -> bool {
        self.data@[i] is Full
    }

    /// The live value held by slot `i`.
    pub closed spec fn value_at(self, i: int) -> T {
        self.data@[i]->Full_0
    }

    /// The generation currently stored for slot `i`.
    pub closed spec fn gen_at(self, i: int) -> Generation {
        self.generation@[i]
    }

    /// Number of free slots.
    pub closed spec fn num_free(self) -> nat {
        self.free_list@.len()
    }

    /// Number of occupied slots.
    pub open spec fn len_spec(self) -> nat {
        (self.capacity() - self.num_free()) as nat
    }

    /// A handle is valid for this bank exactly when its slot is in range,
    /// that slot is occupied, and the slot's stored generation equals the
    /// handle's generation tag.
    pub open spec fn valid_handle(self, x: Index) -> bool {
        &&& (x.slot() as int) < self.capacity()
        &&& self.is_occupied(x.slot() as int)
        &&& self.gen_at(x.slot() as int) == x.gen_tag()
    }

    /// What a lookup of `x` yields: the value at the handle's slot if the
    /// handle is valid, nothing otherwise.
    pub open spec fn spec_get(self, x: Index) -> Option<T> {
        if self.valid_handle(x) {
            Some(self.value_at(x.slot() as int))
        } else {
            None
        }
    }

    /// The internal invariant: the parallel tables agree in length, the slot
    /// count is bounded, and the free list threads exactly the free slots,
    /// each appearing once, with `last_empty` at its head.
    pub closed spec fn wf(self) -> bool {
        let fl = self.free_list@;
        let n = self.data@.len() as int;
        &&& self.generation@.len() == self.data@.len()
        &&& self.data@.len() <= MAX_INDEX
        &&& self.available_slots == fl.len()
        &&& fl.len() <= self.data@.len()
        &&& (forall|k: int|
            0 <= k < fl.len() ==> 0 <= #[trigger] fl[k] < n)
        &&& (forall|k: int|
            0 <= k < fl.len() ==> (#[trigger] self.data@[fl[k]] matches Slot::Empty(p) && p as int
                == (if k == 0 {
                    -1int
                } else {
                    fl[k - 1]
                })))
        &&& fl.no_duplicates()
        &&& (forall|i: int|
            0 <= i < n && !(#[trigger] self.data@[i] is Full) ==> fl.contains(i))
        &&& self.last_empty as int == (if fl.len() == 0 {
            -1int
        } else {
            fl[fl.len() - 1]
        })
    }

    /// How a successful allocation relates the bank before the call, the bank
    /// after it, the value inserted and the handle returned.
    pub open spec fn alloc_transition(pre: Self, post: Self, v: T, h: Index) -> bool {
        &&& post.valid_handle(h)
        &&& post.value_at(h.slot() as int) == v
        &&& post.len_spec() == pre.len_spec() + 1
        &&& (if pre.len_spec() < pre.capacity() {
            &&& post.capacity() == pre.capacity()
            &&& (h.slot() as int) < pre.capacity() as int
            &&& !pre.is_occupied(h.slot() as int)
        } else {
            &&& post.capacity() == pre.capacity() + 1
            &&& h.slot() == pre.capacity()
            &&& h.gen_tag() == 1
        })
        &&& (forall|i: int|
            0 <= i < pre.capacity() && i != h.slot() as int ==> {
                &&& (#[trigger] post.is_occupied(i)) == pre.is_occupied(i)
                &&& post.gen_at(i) == pre.gen_at(i)
                &&& (pre.is_occupied(i) ==> post.value_at(i) == pre.value_at(i))
            })
        &&& ((h.slot() as int) < pre.capacity() ==> post.gen_at(h.slot() as int) == pre.gen_at(
            h.slot() as int,
        ))
    }

    /// How a successful free relates the bank before the call, the bank after
    /// it and the handle freed: the payload is gone, the slot's generation is
    /// incremented with wraparound, and every other slot is untouched.
    pub open spec fn free_transition(pre: Self, post: Self, x: Index) -> bool {
        &&& pre.valid_handle(x)
        &&& post.capacity() == pre.capacity()
        &&& post.len_spec() + 1 == pre.len_spec()
        &&& !post.is_occupied(x.slot() as int)
        &&& post.gen_at(x.slot() as int) == wrap_inc(pre.gen_at(x.slot() as int))
        &&& (forall|i: int|
            0 <= i < pre.capacity() && i != x.slot() as int ==> {
                &&& (#[trigger] post.is_occupied(i)) == pre.is_occupied(i)
                &&& post.gen_at(i) == pre.gen_at(i)
                &&& (pre.is_occupied(i) ==> post.value_at(i) == pre.value_at(i))
            })
    }

    /// A new, empty bank.
    pub fn new() -> (r: Self)
        ensures
            r.wf(),
            r.capacity() == 0,
            r.len_spec() == 0,
    {
        Bank {
            data: Vec::new(),
            last_empty: -1,
            generation: Vec::new(),
            available_slots: 0,
            free_list: Ghost(Seq::empty()),
        }
    }

    /// Number of values currently stored in the bank, tracked in O(1).
    #[inline]
    pub fn len(&self) -> (n: usize)
        requires
            self.wf(),
        ensures
            n == self.len_spec(),
            n <= MAX_INDEX,
    {
        self.data.len() - self.available_slots
    }

    /// Look a handle up; the handle must be valid for this bank. Stale or
    /// out-of-range handles are a caller error on this path; use
    /// [`Bank::try_get`] for the total variant.
    #[inline]
    pub fn get(&self, x: Index) -> (r: &T)
        requires
            self.wf(),
            self.valid_handle(x),
        ensures
            Some(*r) == self.spec_get(x),
    {
        let idx = x.index();
        match &self.data[idx] {
            Slot::Full(v) => v,
            Slot::Empty(_) => vstd::pervasive::unreached(),
        }
    }

    /// Look a handle up without any precondition: yields nothing when the
    /// slot is out of range, free, or stamped with a different generation.
    /// This is the defense against use after free: a stale handle returns
    /// nothing rather than aliasing an unrelated live value.
    pub fn try_get(&self, x: Index) -> (r: Option<&T>)
        requires
            self.wf(),
        ensures
            match r {
                Some(v) => self.spec_get(x) == Some(*v),
                None => self.spec_get(x) is None,
            },
    {
        let idx = x.index();
        if idx >= self.data.len() {
            return None;
        }
        if self.generation[idx] != x.generation() {
            return None;
        }
        match &self.data[idx] {
            Slot::Full(v) => Some(v),
            Slot::Empty(_) => None,
        }
    }

    /// Insert a value, reusing a free slot when one exists and growing the
    /// table by one slot otherwise. Fails exactly when the bank already
    /// holds the maximum number of values.
    pub fn allocate(&mut self, x: T) -> (r: Result<Index, Error>)
        requires
            old(self).wf(),
        ensures
            final(self).wf(),
            match r {
                Ok(h) => Self::alloc_transition(*old(self), *final(self), x, h),
                Err(e) => e == Error::Full && *final(self) == *old(self),
            },
            r is Err <==> old(self).len_spec() == MAX_INDEX,
    {
        let idx: usize;
        let generation: Generation;
        if self.available_slots == 0 {
            // no free slot: grow the table by one
            idx = self.data.len();
            if idx >= MAX_INDEX {
                return Err(Error::Full);
            }
            self.data.push(Slot::Full(x));
            generation = 1;
            self.generation.push(generation);
        } else {
            // reuse the slot at the head of the free list
            let ghost fl = self.free_list@;
            proof {
                assert(fl[fl.len() - 1] == self.last_empty as int);
                assert(self.data@[fl[fl.len() - 1]] is Empty);
            }
            let le = self.last_empty;
            idx = le as usize;
            let prev: i32 = match &self.data[idx] {
                Slot::Empty(p) => *p,
                Slot::Full(_) => vstd::pervasive::unreached(),
            };
            self.last_empty = prev;
            generation = self.generation[idx];
            self.available_slots = self.available_slots - 1;
            self.data.set(idx, Slot::Full(x));
            proof {
                self.free_list@ = fl.drop_last();
                let fl2 = self.free_list@;
                assert forall|i: int|
                    0 <= i < self.data@.len() && !(#[trigger] self.data@[i] is Full) implies fl2
                    .contains(i) by {
                    assert(fl.contains(i));
                    let k = choose|k: int| 0 <= k < fl.len() && fl[k] == i;
                    assert(k < fl.len() - 1);
                    assert(fl2[k] == i);
                }
            }
        }
        let packed: u32 = ((idx as u32) << 8) | (generation as u32);
        proof {
            lemma_pack_unpack(idx as u32, generation);
        }
        let h = Index::from_u32(packed);
        Ok(h)
    }

    /// Insert the value produced by `f`, with the same contract as
    /// [`Bank::allocate`]; `f` is only run once a slot is owed, so failure does
    /// not construct a wasted value.
    #[inline]
    pub fn allocate_with<F: FnOnce() -> T>(&mut self, f: F) -> (r: Result<Index, Error>)
        requires
            old(self).wf(),
            call_requires(f, ()),
        ensures
            final(self).wf(),
            match r {
                Ok(h) => exists|v: T|
                    #[trigger] call_ensures(f, (), v) && Self::alloc_transition(
                        *old(self),
                        *final(self),
                        v,
                        h,
                    ),
                Err(e) => e == Error::Full && *final(self) == *old(self),
            },
            r is Err <==> old(self).len_spec() == MAX_INDEX,
    {
        if self.available_slots == 0 && self.data.len() >= MAX_INDEX {
            return Err(Error::Full);
        }
        let x = f();
        let r = self.allocate(x);
        proof {
            if r is Ok {
                assert(call_ensures(f, (), x) && Self::alloc_transition(
                    *old(self),
                    *self,
                    x,
                    r->Ok_0,
                ));
            }
        }
        r
    }

    /// Release the slot a valid handle refers to: the payload is destroyed,
    /// the slot's generation is incremented (wrapping) and the slot joins the
    /// free list. A failed free performs no mutation and reports exactly why:
    /// `InvalidIndex` when the slot is out of range or already free,
    /// `WrongGeneration` when the slot is occupied under a newer generation.
    pub fn free(&mut self, x: Index) -> (r: Result<(), Error>)
        requires
            old(self).wf(),
        ensures
            final(self).wf(),
            match r {
                Ok(()) => Self::free_transition(*old(self), *final(self), x),
                Err(e) => *final(self) == *old(self) && match e {
                    Error::InvalidIndex(s) => s == x.slot() && ((x.slot() as int)
                        >= old(self).capacity() as int || !old(self).is_occupied(x.slot() as int)),
                    Error::WrongGeneration(s) => s == x.slot() && (x.slot() as int)
                        < old(self).capacity() as int && old(self).is_occupied(x.slot() as int)
                        && old(self).gen_at(x.slot() as int) != x.gen_tag(),
                    _ => false,
                },
            },
            r is Ok <==> old(self).valid_handle(x),
    {
        let idx = x.index();
        if idx >= self.data.len() {
            return Err(Error::InvalidIndex(idx as u32));
        }
        let occupied = match &self.data[idx] {
            Slot::Full(_) => true,
            Slot::Empty(_) => false,
        };
        if !occupied {
            return Err(Error::InvalidIndex(idx as u32));
        }
        let cur_gen = self.generation[idx];
        if cur_gen != x.generation() {
            return Err(Error::WrongGeneration(idx as u32));
        }
        let ghost fl = self.free_list@;
        // thread the slot onto the free list in place of the payload
        self.data.set(idx, Slot::Empty(self.last_empty));
        self.last_empty = idx as i32;
        let new_gen: Generation = if cur_gen == 255 {
            0
        } else {
            cur_gen + 1
        };
        self.generation.set(idx, new_gen);
        proof {
            self.free_list@ = fl.push(idx as int);
            let fl2 = self.free_list@;
            assert forall|k: int| 0 <= k < fl.len() implies fl[k] != idx as int by {
                assert(self.data@[fl[k]] is Empty || fl[k] == idx as int);
                assert(old(self).data@[fl[k]] is Empty);
            }
            lemma_distinct_in_range_len(fl2, self.data@.len() as int);
            assert forall|i: int|
                0 <= i < self.data@.len() && !(#[trigger] self.data@[i] is Full) implies fl2
                .contains(i) by {
                if i == idx as int {
                    assert(fl2[fl2.len() - 1] == i);
                } else {
                    assert(fl.contains(i));
                    let k = choose|k: int| 0 <= k < fl.len() && fl[k] == i;
                    assert(fl2[k] == i);
                }
            }
        }
        self.available_slots = self.available_slots + 1;
        Ok(())
    }
}

impl<T: Copy> Bank<T> {
    /// Look a valid handle up and return the value by copy.
    #[inline]
    pub fn get_copy(&self, x: Index) -> (r: T)
        requires
            self.wf(),
            self.valid_handle(x),
        ensures
            Some(r) == self.spec_get(x),
    {
        *self.get(x)
    }
}

/// Round trip: a successful allocation of `v` yields a handle under which
/// the bank holds exactly `v`.
pub proof fn lemma_allocate_round_trip<T>(pre: Bank<T>, post: Bank<T>, v: T, h: Index)
    requires
        Bank::alloc_transition(pre, post, v, h),
    ensures
        post.spec_get(h) == Some(v),
{
}

/// Isolation: two allocations in sequence yield distinct handles, even when
/// the two values are equal.
pub proof fn lemma_allocate_isolation<T>(
    s0: Bank<T>,
    s1: Bank<T>,
    s2: Bank<T>,
    v1: T,
    v2: T,
    h1: Index,
    h2: Index,
)
    requires
        Bank::alloc_transition(s0, s1, v1, h1),
        Bank::alloc_transition(s1, s2, v2, h2),
    ensures
        h1 != h2,
{
    assert(s1.is_occupied(h1.slot() as int));
    if s1.len_spec() < s1.capacity() {
        assert(!s1.is_occupied(h2.slot() as int));
    }
    assert(h1.slot() != h2.slot());
}

/// Free invalidates: after a successful free of `h`, looking `h` up yields
/// nothing, whatever else the arena holds.
pub proof fn lemma_free_invalidates<T>(pre: Bank<T>, post: Bank<T>, h: Index)
    requires
        Bank::free_transition(pre, post, h),
    ensures
        post.spec_get(h) is None,
{
}

/// Slot reuse changes the generation: when a freed handle's slot is reused
/// by a later allocation, the new handle differs from the old one, the old
/// handle looks up to nothing, and the new one looks up to the new value.
pub proof fn lemma_reuse_changes_generation<T>(
    s0: Bank<T>,
    s1: Bank<T>,
    s2: Bank<T>,
    h1: Index,
    v: T,
    h2: Index,
)
    requires
        Bank::free_transition(s0, s1, h1),
        Bank::alloc_transition(s1, s2, v, h2),
        h2.slot() == h1.slot(),
    ensures
        h1 != h2,
        s2.spec_get(h1) is None,
        s2.spec_get(h2) == Some(v),
{
    let i = h1.slot() as int;
    assert(h1.gen_tag() == s0.gen_at(i));
    assert(s1.gen_at(i) == wrap_inc(s0.gen_at(i)));
    assert(h2.gen_tag() == s2.gen_at(i));
    assert(s2.gen_at(i) == s1.gen_at(i));
    assert(h1.gen_tag() != h2.gen_tag());
}

/// Double free rejected: after a successful free of `h`, the handle `h` is
/// no longer valid, so a second `free(h)` fails (and by `free`'s contract a
/// failed free leaves the arena, its count included, unchanged).
pub proof fn lemma_double_free_rejected<T>(pre: Bank<T>, post: Bank<T>, h: Index)
    requires
        Bank::free_transition(pre, post, h),
    ensures
        !post.valid_handle(h),
{
}

/// No growth under churn: as long as the bank holds fewer values than it has
/// slots, an allocation reuses a freed slot instead of growing the table.
pub proof fn lemma_allocate_reuses_free_slot<T>(pre: Bank<T>, post: Bank<T>, v: T, h: Index)
    requires
        Bank::alloc_transition(pre, post, v, h),
        pre.len_spec() < pre.capacity(),
    ensures
        post.capacity() == pre.capacity(),
{
}

/// An allocation leaves every other handle's lookup unchanged.
pub proof fn lemma_allocate_preserves_other_handles<T>(
    pre: Bank<T>,
    post: Bank<T>,
    v: T,
    h: Index,
    h2: Index,
)
    requires
        Bank::alloc_transition(pre, post, v, h),
        pre.spec_get(h2) is Some,
        h2 != h,
    ensures
        post.spec_get(h2) == pre.spec_get(h2),
{
    assert(pre.is_occupied(h2.slot() as int));
    if pre.len_spec() < pre.capacity() {
        assert(!pre.is_occupied(h.slot() as int));
    }
    assert(h2.slot() != h.slot());
    let i = h2.slot() as int;
    assert(post.is_occupied(i) == pre.is_occupied(i));
    assert(post.gen_at(i) == pre.gen_at(i));
    assert(post.value_at(i) == pre.value_at(i));
}

/// A free leaves every other handle's lookup unchanged.
pub proof fn lemma_free_preserves_other_handles<T>(
    pre: Bank<T>,
    post: Bank<T>,
    h: Index,
    h2: Index,
)
    requires
        Bank::free_transition(pre, post, h),
        pre.spec_get(h2) is Some,
        h2 != h,
    ensures
        post.spec_get(h2) == pre.spec_get(h2),
{
    let i = h.slot() as int;
    if h2.slot() == h.slot() {
        assert(h2.gen_tag() == pre.gen_at(i));
        assert(h.gen_tag() == pre.gen_at(i));
        assert(h2.slot() == h.slot() && h2.gen_tag() == h.gen_tag());
        crate::index::lemma_handle_parts_determine(h, h2);
        assert(false);
    }
}

impl<T> Bank<T> {
    /// The set of occupied slot positions.
    pub closed spec fn occupied_set(self) -> Set<int> {
        Set::new(|i: int| 0 <= i < self.capacity() && self.is_occupied(i))
    }

    /// Count invariant: the number reported by `len` is exactly the number
    /// of occupied slots, that is, of handles issued and not yet freed.
    pub proof fn lemma_len_counts_occupied(self)
        requires
            self.wf(),
        ensures
            self.occupied_set().finite(),
            self.occupied_set().len() == self.len_spec(),
    {
        let fl = self.free_list@;
        let n = self.capacity() as int;
        let range = set_int_range(0, n);
        lemma_int_range(0, n);
        fl.unique_seq_to_set();
        assert forall|x: int| fl.to_set().contains(x) implies range.contains(x) by {
            let k = choose|k: int| 0 <= k < fl.len() && fl[k] == x;
        }
        assert forall|x: int| fl.to_set().contains(x) implies !self.is_occupied(x) by {
            let k = choose|k: int| 0 <= k < fl.len() && fl[k] == x;
        }
        assert(self.occupied_set() =~= range.difference(fl.to_set()));
        lemma_len_subset(fl.to_set(), range);
        assert(range.intersect(fl.to_set()) =~= fl.to_set());
        lemma_set_difference_len(range, fl.to_set());
    }
}

/// A sequence of distinct integers all drawn from `[0, n)` has at most `n`
/// entries.
proof fn lemma_distinct_in_range_len(fl: Seq<int>, n: int)
    requires
        fl.no_duplicates(),
        forall|k: int| 0 <= k < fl.len() ==> 0 <= #[trigger] fl[k] < n,
        0 <= n,
    ensures
        fl.len() <= n,
{
    fl.unique_seq_to_set();
    assert forall|x: int| fl.to_set().contains(x) implies set_int_range(0, n).contains(x) by {
        let k = choose|k: int| 0 <= k < fl.len() && fl[k] == x;
    }
    lemma_int_range(0, n);
    lemma_len_subset(fl.to_set(), set_int_range(0, n));
}

} // verus!
