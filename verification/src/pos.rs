//! Block coordinates and their packed keys.
use vstd::prelude::*;

verus! {

/// Integer coordinates of one block.
#[derive(Clone, Copy, PartialEq, Eq, PartialOrd, Ord, Hash, Structural, Debug)]
pub struct BlockPos {
    pub x: i32,
    pub y: i32,
    pub z: i32,
}

/// The packed form of a position: each coordinate is shifted to be
/// non-negative, and the three are laid out from `x` down to `z`.
pub open spec fn pos_key(pos: BlockPos) -> int {
    (pos.x + 0x8000_0000) * 0x1_0000_0000_0000_0000 + (pos.y + 0x8000_0000) * 0x1_0000_0000 + (pos.z
        + 0x8000_0000)
}

/// Lexicographic order on `(x, y, z)`.
pub open spec fn pos_before(a: BlockPos, b: BlockPos) -> bool {
    a.x < b.x || (a.x == b.x && (a.y < b.y || (a.y == b.y && a.z < b.z)))
}

impl BlockPos {
    pub fn new(x: i32, y: i32, z: i32) -> (pos: BlockPos)
        ensures
            pos == (BlockPos { x, y, z }),
    {
        BlockPos { x, y, z }
    }

    /// The packed key of this position.
    pub fn key(self) -> (key: u128)
        ensures
            key == pos_key(self),
    {
        let x: u128 = (self.x as i64 + 0x8000_0000) as u128;
        let y: u128 = (self.y as i64 + 0x8000_0000) as u128;
        let z: u128 = (self.z as i64 + 0x8000_0000) as u128;
        x * 0x1_0000_0000_0000_0000 + y * 0x1_0000_0000 + z
    }

    /// Whether this position sorts before `other` by `x`, then `y`, then `z`.
    pub fn before(self, other: BlockPos) -> (r: bool)
        ensures
            r == pos_before(self, other),
    {
        self.x < other.x || (self.x == other.x && (self.y < other.y || (self.y == other.y && self.z
            < other.z)))
    }
}

/// Packing keeps the lexicographic order of coordinates, so sorting by key and
/// sorting by position agree.
pub proof fn packed_keys_keep_coordinate_order(a: BlockPos, b: BlockPos)
    ensures
        pos_before(a, b) <==> pos_key(a) < pos_key(b),
        pos_key(a) == pos_key(b) <==> a == b,
{
}

/// Every packed key is a `u128` below the 96-bit bound.
pub proof fn packed_keys_fit(pos: BlockPos)
    ensures
        0 <= pos_key(pos) < 0x1_0000_0000_0000_0000_0000_0000,
{
}

/// The packed key of a position, as maps store it.
pub open spec fn slot(pos: BlockPos) -> u128 {
    pos_key(pos) as u128
}

pub proof fn lemma_slots_are_distinct()
    ensures
        forall|a: BlockPos, b: BlockPos| #[trigger] slot(a) == #[trigger] slot(b) ==> a == b,
        forall|a: BlockPos| #[trigger] slot(a) == pos_key(a),
{
    assert forall|a: BlockPos, b: BlockPos| #[trigger] slot(a) == #[trigger] slot(b) implies a
        == b by {
        packed_keys_fit(a);
        packed_keys_fit(b);
        packed_keys_keep_coordinate_order(a, b);
    }
    assert forall|a: BlockPos| #[trigger] slot(a) == pos_key(a) by {
        packed_keys_fit(a);
    }
}

/// A set of positions is as large as the set of their keys.
pub proof fn lemma_slot_count(places: Set<BlockPos>, keys: Set<u128>)
    requires
        keys.finite(),
        forall|at: BlockPos| #[trigger] places.contains(at) <==> keys.contains(slot(at)),
        forall|key: u128| #[trigger] keys.contains(key) ==> exists|at: BlockPos| #[trigger] slot(at) == key,
    ensures
        places.finite(),
        places.len() == keys.len(),
{
    lemma_slots_are_distinct();
    let f = |key: u128| choose|at: BlockPos| #[trigger] slot(at) == key;
    assert forall|key: u128| keys.contains(key) implies slot(#[trigger] f(key)) == key by {}
    assert(keys.map(f) =~= places) by {
        assert forall|at: BlockPos| places.contains(at) implies keys.map(f).contains(at) by {
            assert(keys.contains(slot(at)));
            assert(f(slot(at)) == at);
        }
    }
    vstd::set_lib::lemma_map_size(keys, places, f);
}

} // verus!
