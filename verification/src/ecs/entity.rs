use vstd::prelude::*;

verus! {

/// Number of low bits of a packed id that carry the index.
pub const INDEX_BITS: u32 = 20;

/// Number of distinct indices that a packed id can carry.
pub const INDEX_SPAN: u32 = 0x10_0000;

/// Number of distinct generations that a packed id can carry.
pub const GENERATION_SPAN: u32 = 0x1000;

/// Generation-tagged handle of an entity.
///
/// The identity is the pair of slot index and generation. The generation is
/// never zero: a handle whose generation is zero cannot be built.
#[derive(Debug, Clone, Copy, PartialEq, Eq, Hash, Structural)]
pub struct EntityId {
    index: u32,
    generation: u32,
}

impl EntityId {
    #[verifier::type_invariant]
    spec fn generation_is_positive(self) -> bool {
        self.generation >= 1
    }

    pub closed spec fn spec_index(&self) -> u32 {
        self.index
    }

    pub closed spec fn spec_generation(&self) -> u32 {
        self.generation
    }

    /// The handle with the given index and generation, in ghost code.
    pub closed spec fn spec_new(index: u32, generation: u32) -> EntityId {
        EntityId { index, generation }
    }

    /// The packed form: generation modulo 4096 in the high twelve bits, index
    /// modulo 2^20 in the low twenty.
    pub open spec fn spec_to_u32(&self) -> u32 {
        ((self.spec_generation() % GENERATION_SPAN) * INDEX_SPAN + self.spec_index() % INDEX_SPAN) as u32
    }

    /// The handle that a packed id stands for; a packed generation of zero reads as one.
    pub open spec fn spec_from_u32(id: u32) -> EntityId {
        Self::spec_new(
            id % INDEX_SPAN,
            if id / INDEX_SPAN == 0 {
                1u32
            } else {
                id / INDEX_SPAN
            },
        )
    }

    /// Builds a handle. The generation must not be zero.
    pub fn new(index: u32, generation: u32) -> (r: Self)
        requires
            generation != 0,
        ensures
            r == Self::spec_new(index, generation),
            r.spec_index() == index,
            r.spec_generation() == generation,
    {
        EntityId { index, generation }
    }

    #[verifier::when_used_as_spec(spec_index)]
    pub fn index(&self) -> (r: u32)
        ensures
            r == self.spec_index(),
    {
        self.index
    }

    #[verifier::when_used_as_spec(spec_generation)]
    pub fn generation(&self) -> (r: u32)
        ensures
            r == self.spec_generation(),
            r >= 1,
    {
        proof {
            use_type_invariant(self);
        }
        self.generation
    }

    /// Packs the handle into 32 bits for transport. Lossy beyond 2^20 indices
    /// or 4095 generations.
    #[verifier::when_used_as_spec(spec_to_u32)]
    pub fn to_u32(&self) -> (r: u32)
        ensures
            r == self.spec_to_u32(),
    {
        let generation: u32 = self.generation;
        let index: u32 = self.index;
        let generation_bits: u32 = (generation & 0xFFF) << 20;
        let index_bits: u32 = index & 0xFFFFF;
        assert(generation_bits | index_bits == ((generation % 0x1000) * 0x10_0000 + index % 0x10_0000) as u32)
            by (bit_vector)
            requires
                generation_bits == (generation & 0xFFF) << 20,
                index_bits == index & 0xFFFFF,
        ;
        generation_bits | index_bits
    }

    /// Unpacks a transported id.
    pub fn from_u32(id: u32) -> (r: Self)
        ensures
            r == Self::spec_from_u32(id),
    {
        let generation: u32 = (id >> 20) & 0xFFF;
        let index: u32 = id & 0xFFFFF;
        assert(generation == id / 0x10_0000 && index == id % 0x10_0000) by (bit_vector)
            requires
                generation == (id >> 20) & 0xFFF,
                index == id & 0xFFFFF,
        ;
        if generation == 0 {
            Self::new(index, 1)
        } else {
            Self::new(index, generation)
        }
    }
}

/// What a handle built in ghost code holds.
pub broadcast proof fn lemma_spec_new(index: u32, generation: u32)
    ensures
        (#[trigger] EntityId::spec_new(index, generation)).spec_index() == index,
        EntityId::spec_new(index, generation).spec_generation() == generation,
{
}

/// A handle is its index and its generation, and nothing more.
pub broadcast proof fn lemma_handle_is_pair(e: EntityId)
    ensures
        #![trigger e.spec_index()]
        #![trigger e.spec_generation()]
        e == EntityId::spec_new(e.spec_index(), e.spec_generation()),
{
}

pub broadcast group group_entity_id {
    lemma_spec_new,
    lemma_handle_is_pair,
}

/// Packing then unpacking gives the handle back while the index is below 2^20
/// and the generation below 2^12.
pub proof fn lemma_pack_roundtrip(e: EntityId)
    requires
        e.spec_index() < INDEX_SPAN,
        1 <= e.spec_generation() < GENERATION_SPAN,
    ensures
        EntityId::spec_from_u32(e.spec_to_u32()) == e,
{
    let g = e.spec_generation();
    let i = e.spec_index();
    let packed = e.spec_to_u32();
    assert(packed == g * 0x10_0000 + i);
    assert(packed / 0x10_0000 == g && packed % 0x10_0000 == i) by (nonlinear_arith)
        requires
            packed == g * 0x10_0000 + i,
            i < 0x10_0000,
    ;
}

/// Unpacking then packing gives the packed id back unless its generation bits are zero.
pub proof fn lemma_unpack_roundtrip(id: u32)
    requires
        id >= INDEX_SPAN,
    ensures
        EntityId::spec_from_u32(id).spec_to_u32() == id,
{
    let g = id / 0x10_0000;
    let i = id % 0x10_0000;
    assert(g < 0x1000 && g >= 1 && id == g * 0x10_0000 + i) by (nonlinear_arith)
        requires
            g == id / 0x10_0000,
            i == id % 0x10_0000,
            id >= 0x10_0000,
            id <= 0xFFFF_FFFF,
    ;
}

} // verus!
