use vstd::prelude::*;

verus! {

/// Number of distinct ids (and of distinct generations): `2^32`.
pub const ID_SPACE: u64 = 0x1_0000_0000;

/// Lightweight unique handle of an entity.
///
/// Two handles are equal when both fields are; they order by `generation`
/// first, then by `id` (the declaration order of the fields).
#[derive(Clone, Copy, Debug, Hash, PartialEq, Eq, Structural, PartialOrd, Ord)]
pub struct Entity {
    pub generation: u32,
    pub id: u32,
}

/// The 64-bit packed form of a handle: generation in the high half, id in the low half.
pub open spec fn bits_of(e: Entity) -> int {
    e.generation as int * ID_SPACE as int + e.id as int
}

/// The handle whose packed form is `bits`.
pub open spec fn entity_of_bits(bits: int) -> Entity {
    Entity { generation: (bits / ID_SPACE as int) as u32, id: (bits % ID_SPACE as int) as u32 }
}

impl Entity {
    /// Pack into a single integer; only meaningful within one running process.
    pub fn to_bits(self) -> (r: u64)
        ensures
            r as int == bits_of(self),
    {
        let g = self.generation as u64;
        let i = self.id as u64;
        let r = g << 32 | i;
        assert(r == g * 0x1_0000_0000 + i) by (bit_vector)
            requires
                g < 0x1_0000_0000,
                i < 0x1_0000_0000,
                r == g << 32 | i,
        ;
        r
    }

    /// Rebuild a handle from its packed form; the inverse of `to_bits`.
    pub fn from_bits(bits: u64) -> (r: Self)
        ensures
            r == entity_of_bits(bits as int),
    {
        let hi = bits >> 32;
        let lo = bits & 0xFFFF_FFFF;
        assert(hi == bits / 0x1_0000_0000 && lo == bits % 0x1_0000_0000) by (bit_vector)
            requires
                hi == bits >> 32,
                lo == bits & 0xFFFF_FFFF,
        ;
        Entity { generation: hi as u32, id: lo as u32 }
    }

    /// The bare id: unique among live entities only; dead entities' ids are reused.
    pub fn id(self) -> (r: u32)
        ensures
            r == self.id,
    {
        self.id
    }
}

/// Packing a handle and unpacking the result gives back the same handle.
pub proof fn lemma_bits_round_trip(e: Entity)
    ensures
        entity_of_bits(bits_of(e)) == e,
        0 <= bits_of(e) <= u64::MAX,
{
    let g = e.generation as int;
    let i = e.id as int;
    assert(0 <= g * 0x1_0000_0000 + i <= u64::MAX) by (nonlinear_arith)
        requires
            0 <= g < 0x1_0000_0000,
            0 <= i < 0x1_0000_0000,
    ;
    assert((g * 0x1_0000_0000 + i) / 0x1_0000_0000 == g) by (nonlinear_arith)
        requires
            0 <= i < 0x1_0000_0000,
    ;
    assert((g * 0x1_0000_0000 + i) % 0x1_0000_0000 == i) by (nonlinear_arith)
        requires
            0 <= i < 0x1_0000_0000,
    ;
}

/// Where an entity's components are kept in the outside storage: a table and a row.
#[derive(Clone, Copy, Debug, PartialEq, Eq, Structural)]
pub struct Location {
    pub archetype: u32,
    pub index: u32,
}

/// The location of an entity that has not been placed yet.
pub open spec fn unplaced() -> Location {
    Location { archetype: 0, index: u32::MAX }
}

impl Location {
    /// The "not yet placed" location: table 0, row `u32::MAX`.
    pub fn unplaced() -> (r: Location)
        ensures
            r == unplaced(),
    {
        Location { archetype: 0, index: u32::MAX }
    }
}

/// No live entity matches the given handle.
#[derive(Clone, Copy, Debug, PartialEq, Eq, Structural)]
pub struct NoSuchEntity;

impl NoSuchEntity {
    /// A human-readable description of the error.
    pub fn message(&self) -> (r: &'static str)
        ensures
            r@ == "no such entity"@,
    {
        proof {
            reveal_strlit("no such entity");
        }
        "no such entity"
    }
}

} // verus!
