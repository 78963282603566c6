use vstd::prelude::*;

verus! {

/// A handle into a bank, packed into a single copyable 32-bit value:
/// the high 24 bits hold the slot position, the low 8 bits hold the
/// generation tag. Handles are plain lookup keys; holding one confers no
/// ownership of the value it refers to.
#[derive(Clone, Copy, PartialEq, Eq, Hash, Debug, Structural)]
pub struct Index {
    idx: u32,
}

impl Index {
    /// The packed 32-bit value.
    pub closed spec fn raw(self) -> u32 {
        self.idx
    }

    /// The slot position encoded in this handle (high 24 bits).
    pub closed spec fn slot(self) -> u32 {
        self.idx >> 8
    }

    /// The generation tag encoded in this handle (low 8 bits).
    pub closed spec fn gen_tag(self) -> u8 {
        (self.idx & 0xFF) as u8
    }

    /// The slot position encoded in this handle.
    #[inline]
    pub fn index(self) -> (r: usize)
        ensures
            r == self.slot() as usize,
    {
        (self.idx >> 8) as usize
    }

    /// The generation tag encoded in this handle.
    #[inline]
    pub fn generation(self) -> (r: u8)
        ensures
            r == self.gen_tag(),
    {
        (self.idx & 0xFF) as u8
    }

    pub(crate) fn from_u32(i: u32) -> (r: Self)
        ensures
            r.raw() == i,
            r.slot() == i >> 8,
            r.gen_tag() == (i & 0xFF) as u8,
    {
        Index { idx: i }
    }
}

/// Packing a slot position below 2^24 with a generation tag and unpacking
/// them again returns the same pair, and the slot position alone is always
/// below 2^24.
pub proof fn lemma_pack_unpack(slot: u32, g: u8)
    by (bit_vector)
    requires
        slot < 0x100_0000,
    ensures
        ((slot << 8) | (g as u32)) >> 8 == slot,
        (((slot << 8) | (g as u32)) & 0xFF) as u8 == g,
{
}

/// Two handles that agree on the slot position and on the generation tag
/// are the same handle.
pub proof fn lemma_handle_parts_determine(a: Index, b: Index)
    requires
        a.slot() == b.slot(),
        a.gen_tag() == b.gen_tag(),
    ensures
        a == b,
{
    let ai = a.idx;
    let bi = b.idx;
    assert(ai == bi) by (bit_vector)
        requires
            ai >> 8 == bi >> 8,
            (ai & 0xFF) as u8 == (bi & 0xFF) as u8,
    ;
}

} // verus!
