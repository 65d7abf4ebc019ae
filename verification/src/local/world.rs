//! Block classification, world views and owned world snapshots.
use vstd::prelude::*;

use crate::arith::{saturating_add_i32, saturating_mul_u64};
use crate::pos::BlockPos;
use crate::text;
use crate::text::{has_suffix, same_text};
use crate::arith;

verus! {

/// Hard ceiling for one owned world snapshot.
pub const MAX_SNAPSHOT_BLOCKS: u64 = 2_000_000;

/// A step exactly half a block tall, which is what a slab and a bottom stair
/// are.
pub const HALF_BLOCK: u8 = 8;

/// Coarse classification of a block for pathfinding purposes.
#[derive(Clone, Copy, PartialEq, Eq, Structural, Debug)]
pub enum BlockKind {
    Air,
    Solid,
    /// A fence, wall, or gate. It blocks movement and cannot be used as a floor.
    Fence,
    /// A bottom slab, bottom stair, carpet or snow layer that can be walked
    /// onto, carrying its collision height in sixteenths of a block.
    Step(u8),
    /// Lava. It remains occupiable so a trapped bot can plan an exit.
    Lava,
    /// Missing chunk data, treated as impassable.
    Unloaded,
    /// A block with no collision at all: grass, flowers, crops, torches, signs,
    /// rails, thin snow.
    Passable,
    /// Water, including waterlogged blocks the body can pass through.
    Water,
    /// A ladder, vine or scaffolding.
    Climbable,
}

/// The mathematical content of a world: what each block is, and where the bot
/// can hold position.
pub struct Terrain {
    pub kinds: spec_fn(BlockPos) -> BlockKind,
    pub holds: spec_fn(BlockPos) -> bool,
}

impl Terrain {
    /// What the block at `pos` is.
    pub open spec fn kind(self, pos: BlockPos) -> BlockKind {
        (self.kinds)(pos)
    }

    /// Whether the bot can hold position with its feet at `pos`.
    pub open spec fn stands(self, pos: BlockPos) -> bool {
        (self.holds)(pos)
    }
}

/// The position `(dx, dy, dz)` away from `pos`, stopping at the edge of the
/// coordinate range.
pub open spec fn shift(pos: BlockPos, dx: int, dy: int, dz: int) -> BlockPos {
    BlockPos { x: arith::clamp_i32(pos.x + dx), y: arith::clamp_i32(pos.y + dy), z: arith::clamp_i32(pos.z + dz) }
}

pub fn offset(p: BlockPos, dx: i32, dy: i32, dz: i32) -> (moved: BlockPos)
    ensures
        moved == shift(p, dx as int, dy as int, dz as int),
{
    BlockPos {
        x: saturating_add_i32(p.x, dx),
        y: saturating_add_i32(p.y, dy),
        z: saturating_add_i32(p.z, dz),
    }
}

/// Room for a body part, including in liquids and on ladders.
pub open spec fn occupiable(kind: BlockKind) -> bool {
    kind is Air || kind is Passable || kind is Climbable || kind is Lava || kind is Water
}

/// Empty space as far as the body is concerned.
pub open spec fn is_open(kind: BlockKind) -> bool {
    kind is Air || kind is Passable
}

/// The standing rule: a body needs support below open feet, head room
/// everywhere, and holds itself in water and on ladders. A partial block is
/// stood inside, which raises the head by a block.
pub open spec fn body_holds(
    feet: BlockKind,
    below: BlockKind,
    above: BlockKind,
    two_above: BlockKind,
) -> bool {
    match feet {
        BlockKind::Air | BlockKind::Passable | BlockKind::Lava => occupiable(above) && (
        below is Solid || below is Lava),
        BlockKind::Climbable | BlockKind::Water => occupiable(above),
        BlockKind::Step(_) => is_open(above) && is_open(two_above),
        _ => false,
    }
}

/// The standing rule applied to the blocks around `pos`.
pub open spec fn stands_by_blocks(kinds: spec_fn(BlockPos) -> BlockKind, pos: BlockPos) -> bool {
    body_holds(
        kinds(pos),
        kinds(shift(pos, 0, -1, 0)),
        kinds(shift(pos, 0, 1, 0)),
        kinds(shift(pos, 0, 2, 0)),
    )
}

/// A world that nothing is known of.
pub open spec fn unknown_terrain() -> Terrain {
    let kinds = |pos: BlockPos| BlockKind::Unloaded;
    Terrain { kinds, holds: |pos: BlockPos| stands_by_blocks(kinds, pos) }
}

/// The block data needed by the local planner.
pub trait WorldView {
    /// The world this view reads. Unless said otherwise, nothing of it is
    /// loaded.
    open spec fn terrain(&self) -> Terrain {
        unknown_terrain()
    }

    fn block(&self, pos: BlockPos) -> (kind: BlockKind)
        ensures
            kind == self.terrain().kind(pos),
    ;

    /// Returns whether the bot can hold position with its feet at `pos`, either
    /// standing on something or floating in water.
    /// Lava is occupiable here; the movement policy decides whether entry is safe.
    /// Views without a rule of their own answer with [`standable_by_blocks`].
    fn standable(&self, pos: BlockPos) -> (holds: bool)
        ensures
            holds == self.terrain().stands(pos),
    ;
}

/// The standing rule for the block at the feet and the ones around it.
pub fn body_can_hold(
    feet: BlockKind,
    below: BlockKind,
    above: BlockKind,
    two_above: BlockKind,
) -> (holds: bool)
    ensures
        holds == body_holds(feet, below, above, two_above),
{
    match feet {
        BlockKind::Air | BlockKind::Passable | BlockKind::Lava => {
            can_occupy(above) && match below {
                BlockKind::Solid | BlockKind::Lava => true,
                _ => false,
            }
        },
        BlockKind::Climbable | BlockKind::Water => can_occupy(above),
        BlockKind::Step(_) => open_kind(above) && open_kind(two_above),
        _ => false,
    }
}

/// The standing rule read off the blocks around `pos`.
pub fn standable_by_blocks<W: WorldView + ?Sized>(world: &W, pos: BlockPos) -> (holds: bool)
    ensures
        holds == stands_by_blocks(world.terrain().kinds, pos),
{
    body_can_hold(
        world.block(pos),
        world.block(offset(pos, 0, -1, 0)),
        world.block(offset(pos, 0, 1, 0)),
        world.block(offset(pos, 0, 2, 0)),
    )
}

fn can_occupy(kind: BlockKind) -> (r: bool)
    ensures
        r == occupiable(kind),
{
    match kind {
        BlockKind::Air
        | BlockKind::Passable
        | BlockKind::Climbable
        | BlockKind::Lava
        | BlockKind::Water => true,
        _ => false,
    }
}

/// Whether a block is empty space as far as the body is concerned.
pub fn open_kind(kind: BlockKind) -> (r: bool)
    ensures
        r == is_open(kind),
{
    match kind {
        BlockKind::Air | BlockKind::Passable => true,
        _ => false,
    }
}

/// What a block's registry entry and collision shape say about it.
#[derive(Debug)]
pub struct BlockFacts {
    pub air: bool,
    /// The registry name in camel case, such as `OakSlab`.
    pub name: String,
    /// Whether the block carries the climbable tag.
    pub climbable: bool,
    /// Whether the block's fluid is water.
    pub water: bool,
    /// Whether the collision shape is empty.
    pub no_collision: bool,
    /// Whether the collision shape tops out at or below half a block.
    pub at_most_half: bool,
    /// The top of the collision shape in sixteenths, rounded.
    pub top_sixteenths: u8,
    /// Whether a slab or stair occupies the bottom half of its block.
    pub bottom_half: bool,
}

/// The classification of a block from its facts, most specific rule first.
pub open spec fn classified(facts: BlockFacts) -> BlockKind {
    let name = facts.name@;
    let half = if facts.bottom_half {
        BlockKind::Step(HALF_BLOCK)
    } else {
        BlockKind::Solid
    };
    if facts.air {
        BlockKind::Air
    } else if name == "Lava"@ {
        BlockKind::Lava
    } else if name == "BubbleColumn"@ {
        BlockKind::Solid
    } else if facts.climbable {
        BlockKind::Climbable
    } else if facts.no_collision {
        if facts.water {
            BlockKind::Water
        } else {
            BlockKind::Passable
        }
    } else if facts.at_most_half {
        BlockKind::Step(facts.top_sixteenths)
    } else if text::ends_with(name, "Slab"@) || text::ends_with(name, "Stairs"@) {
        half
    } else if text::ends_with(name, "Carpet"@) {
        BlockKind::Step(facts.top_sixteenths)
    } else if text::ends_with(name, "Fence"@) || text::ends_with(name, "FenceGate"@) || text::ends_with(
        name,
        "Wall"@,
    ) {
        BlockKind::Fence
    } else {
        BlockKind::Solid
    }
}

/// Reduces a block state to the geometry used by the planner.
///
/// The climbable tag is asked before the shape because a ladder's collision
/// box is a sliver against the wall. Waterlogging only counts for blocks the
/// body can pass through: a waterlogged slab is still a slab.
pub fn classify_state(facts: &BlockFacts) -> (kind: BlockKind)
    ensures
        kind == classified(*facts),
{
    if facts.air {
        return BlockKind::Air;
    }
    let name: &str = facts.name.as_str();
    if same_text(name, "Lava") {
        return BlockKind::Lava;
    }
    // A bubble column drags the player with a velocity nothing here models.
    if same_text(name, "BubbleColumn") {
        return BlockKind::Solid;
    }
    if facts.climbable {
        return BlockKind::Climbable;
    }
    if facts.no_collision {
        return if facts.water {
            BlockKind::Water
        } else {
            BlockKind::Passable
        };
    }
    if facts.at_most_half {
        return BlockKind::Step(facts.top_sixteenths);
    }
    if has_suffix(name, "Slab") || has_suffix(name, "Stairs") {
        return if facts.bottom_half {
            BlockKind::Step(HALF_BLOCK)
        } else {
            BlockKind::Solid
        };
    }
    if has_suffix(name, "Carpet") {
        return BlockKind::Step(facts.top_sixteenths);
    }
    // These are taller than a full block and cannot be climbed from the side.
    if has_suffix(name, "Fence") || has_suffix(name, "FenceGate") || has_suffix(name, "Wall") {
        return BlockKind::Fence;
    }
    BlockKind::Solid
}

#[derive(Clone, Copy, PartialEq, Eq, Structural, Debug)]
pub enum SnapshotError {
    TooLarge { blocks: u64, maximum: u64 },
}

/// The number of coordinates in `low..=high`.
pub open spec fn span(low: i32, high: i32) -> int {
    if high < low {
        0
    } else {
        high - low + 1
    }
}

/// The number of blocks in the inclusive box `lo..=hi`.
pub open spec fn volume(lo: BlockPos, hi: BlockPos) -> int {
    span(lo.x, hi.x) * span(lo.y, hi.y) * span(lo.z, hi.z)
}

/// The measured size of a box: its volume, stopping at the end of the integer
/// range. A plane that does not fit counts as the largest size.
pub open spec fn measured_volume(lo: BlockPos, hi: BlockPos) -> u64 {
    if span(lo.x, hi.x) * span(lo.y, hi.y) > u64::MAX {
        u64::MAX
    } else {
        arith::clamp_u64(volume(lo, hi))
    }
}

fn inclusive_len(low: i32, high: i32) -> (n: u64)
    ensures
        n == span(low, high),
        n <= 0x1_0000_0000,
{
    if high < low {
        0
    } else {
        (high as i64 - low as i64 + 1) as u64
    }
}

/// Sizes along `y` and `z` and the volume of the box `lo..=hi`. An area with
/// more than [`MAX_SNAPSHOT_BLOCKS`] blocks is refused; its reported size stops
/// at the end of the integer range.
pub fn snapshot_shape(lo: BlockPos, hi: BlockPos) -> (shape: Result<
    (usize, usize, usize),
    SnapshotError,
>)
    ensures
        match shape {
            Ok((size_y, size_z, total)) => {
                &&& measured_volume(lo, hi) <= MAX_SNAPSHOT_BLOCKS
                &&& total == volume(lo, hi)
                &&& total > 0 ==> size_y == span(lo.y, hi.y) && size_z == span(lo.z, hi.z)
            },
            Err(SnapshotError::TooLarge { blocks, maximum }) => {
                &&& measured_volume(lo, hi) > MAX_SNAPSHOT_BLOCKS
                &&& blocks == measured_volume(lo, hi)
                &&& maximum == MAX_SNAPSHOT_BLOCKS
            },
        },
{
    let size_x: u64 = inclusive_len(lo.x, hi.x);
    let size_y: u64 = inclusive_len(lo.y, hi.y);
    let size_z: u64 = inclusive_len(lo.z, hi.z);
    proof {
        let x = size_x as int;
        let y = size_y as int;
        let z = size_z as int;
        assert(0 <= x * y <= 0x1_0000_0000 * 0x1_0000_0000) by (nonlinear_arith)
            requires
                0 <= x <= 0x1_0000_0000,
                0 <= y <= 0x1_0000_0000,
        ;
        assert((x * y) * z >= 0) by (nonlinear_arith)
            requires
                x * y >= 0,
                z >= 0,
        ;
    }
    let plane: u128 = size_x as u128 * size_y as u128;
    let total: u64 = if plane > u64::MAX as u128 {
        u64::MAX
    } else {
        saturating_mul_u64(plane as u64, size_z)
    };
    if total > MAX_SNAPSHOT_BLOCKS {
        return Err(SnapshotError::TooLarge { blocks: total, maximum: MAX_SNAPSHOT_BLOCKS });
    }
    proof {
        let x = size_x as int;
        let y = size_y as int;
        let z = size_z as int;
        if total > 0 {
            assert(y <= (x * y) * z && z <= (x * y) * z) by (nonlinear_arith)
                requires
                    (x * y) * z > 0,
                    x >= 0,
                    y >= 0,
                    z >= 0,
            ;
        }
    }
    Ok((size_y as usize, size_z as usize, total as usize))
}

/// The position of the block at `index` in X/Z/Y order.
pub open spec fn position_at(lo: BlockPos, size_y: int, size_z: int, index: int) -> BlockPos {
    shift(lo, index / (size_y * size_z), index % size_y, (index % (size_y * size_z)) / size_y)
}

/// The X/Z/Y index of `pos` in a box that starts at `lo`.
pub open spec fn index_at(lo: BlockPos, size_y: int, size_z: int, pos: BlockPos) -> int {
    ((pos.x - lo.x) * size_z + (pos.z - lo.z)) * size_y + (pos.y - lo.y)
}

pub open spec fn in_box(lo: BlockPos, hi: BlockPos, pos: BlockPos) -> bool {
    &&& lo.x <= pos.x <= hi.x
    &&& lo.y <= pos.y <= hi.y
    &&& lo.z <= pos.z <= hi.z
}

proof fn lemma_index_in_volume(lo: BlockPos, hi: BlockPos, pos: BlockPos)
    requires
        in_box(lo, hi, pos),
    ensures
        0 <= index_at(lo, span(lo.y, hi.y), span(lo.z, hi.z), pos) < volume(lo, hi),
        0 <= (pos.x - lo.x) * span(lo.z, hi.z) + (pos.z - lo.z) < span(lo.x, hi.x) * span(
            lo.z,
            hi.z,
        ),
        volume(lo, hi) > 0,
        span(lo.x, hi.x) * span(lo.z, hi.z) <= volume(lo, hi),
{
    let x = pos.x - lo.x;
    let y = pos.y - lo.y;
    let z = pos.z - lo.z;
    let sx = span(lo.x, hi.x);
    let sy = span(lo.y, hi.y);
    let sz = span(lo.z, hi.z);
    let row = x * sz + z;
    assert(0 <= row < sx * sz) by (nonlinear_arith)
        requires
            row == x * sz + z,
            0 <= x < sx,
            0 <= z < sz,
    ;
    assert(0 <= row * sy + y < (sx * sz) * sy) by (nonlinear_arith)
        requires
            0 <= row < sx * sz,
            0 <= y < sy,
    ;
    assert((sx * sz) * sy == sx * sy * sz) by (nonlinear_arith);
    assert(sx * sz <= (sx * sz) * sy) by (nonlinear_arith)
        requires
            sx * sz > 0,
            sy >= 1,
    ;
}

/// The index of the position at an index is that index again.
pub proof fn snapshot_layout_round_trips(lo: BlockPos, hi: BlockPos, index: int)
    requires
        0 <= index < volume(lo, hi),
    ensures
        in_box(lo, hi, position_at(lo, span(lo.y, hi.y), span(lo.z, hi.z), index)),
        index_at(
            lo,
            span(lo.y, hi.y),
            span(lo.z, hi.z),
            position_at(lo, span(lo.y, hi.y), span(lo.z, hi.z), index),
        ) == index,
{
    let sx = span(lo.x, hi.x);
    let sy = span(lo.y, hi.y);
    let sz = span(lo.z, hi.z);
    assert(sx > 0 && sy > 0 && sz > 0) by (nonlinear_arith)
        requires
            sx * sy * sz > 0,
            sx >= 0,
            sy >= 0,
            sz >= 0,
    ;
    let stride = sy * sz;
    assert(stride > 0) by (nonlinear_arith)
        requires
            stride == sy * sz,
            sy > 0,
            sz > 0,
    ;
    let x = index / stride;
    let rest = index % stride;
    let z = rest / sy;
    let y = rest % sy;
    vstd::arithmetic::div_mod::lemma_fundamental_div_mod(index, stride);
    vstd::arithmetic::div_mod::lemma_fundamental_div_mod(rest, sy);
    assert(0 <= x < sx) by (nonlinear_arith)
        requires
            index == stride * x + rest,
            0 <= rest < stride,
            0 <= index < sx * sy * sz,
            stride == sy * sz,
            stride > 0,
    ;
    assert(0 <= z < sz) by (nonlinear_arith)
        requires
            rest == sy * z + y,
            0 <= y < sy,
            0 <= rest < sy * sz,
            sy > 0,
    ;
    assert(index % sy == y) by {
        assert(index == sy * (sz * x + z) + y) by (nonlinear_arith)
            requires
                index == (sy * sz) * x + (sy * z + y),
        ;
        vstd::arithmetic::div_mod::lemma_fundamental_div_mod_converse(index, sy, sz * x + z, y);
    }
    assert((x * sz + z) * sy + y == index) by (nonlinear_arith)
        requires
            index == (sy * sz) * x + (sy * z + y),
    ;
}

/// The position at the index of a position is that position again.
pub proof fn snapshot_positions_round_trip(lo: BlockPos, hi: BlockPos, pos: BlockPos)
    requires
        in_box(lo, hi, pos),
    ensures
        0 <= index_at(lo, span(lo.y, hi.y), span(lo.z, hi.z), pos) < volume(lo, hi),
        position_at(
            lo,
            span(lo.y, hi.y),
            span(lo.z, hi.z),
            index_at(lo, span(lo.y, hi.y), span(lo.z, hi.z), pos),
        ) == pos,
{
    lemma_index_in_volume(lo, hi, pos);
    let x = pos.x - lo.x;
    let y = pos.y - lo.y;
    let z = pos.z - lo.z;
    let sy = span(lo.y, hi.y);
    let sz = span(lo.z, hi.z);
    let index = index_at(lo, sy, sz, pos);
    let rest = z * sy + y;
    assert(index == x * (sy * sz) + rest && 0 <= rest < sy * sz) by (nonlinear_arith)
        requires
            index == (x * sz + z) * sy + y,
            rest == z * sy + y,
            0 <= z < sz,
            0 <= y < sy,
    ;
    vstd::arithmetic::div_mod::lemma_fundamental_div_mod_converse(index, sy * sz, x, rest);
    vstd::arithmetic::div_mod::lemma_fundamental_div_mod_converse(rest, sy, z, y);
    assert(index == (x * sz + z) * sy + y);
    vstd::arithmetic::div_mod::lemma_fundamental_div_mod_converse(index, sy, x * sz + z, y);
}

/// The position whose block is stored at `index` of a snapshot with the shape
/// that [`snapshot_shape`] reports for `lo..=hi`.
pub fn snapshot_position(
    lo: BlockPos,
    size_y: usize,
    size_z: usize,
    index: usize,
) -> (pos: BlockPos)
    requires
        size_y > 0,
        size_z > 0,
        size_y * size_z <= MAX_SNAPSHOT_BLOCKS,
        index < MAX_SNAPSHOT_BLOCKS,
    ensures
        pos == position_at(lo, size_y as int, size_z as int, index as int),
{
    proof {
        let a = size_y as int;
        let b = size_z as int;
        assert(a * b > 0) by (nonlinear_arith)
            requires
                a > 0,
                b > 0,
        ;
        let i = index as int;
        assert(0 <= i / (a * b) <= i) by (nonlinear_arith)
            requires
                a * b > 0,
                i >= 0,
        ;
        assert(0 <= i % (a * b) <= i) by (nonlinear_arith)
            requires
                a * b > 0,
                i >= 0,
        ;
        let rest = i % (a * b);
        assert(0 <= rest / a <= rest) by (nonlinear_arith)
            requires
                a > 0,
                rest >= 0,
        ;
        assert(0 <= i % a <= i) by (nonlinear_arith)
            requires
                a > 0,
                i >= 0,
        ;
    }
    let stride: usize = size_y * size_z;
    let x_offset: usize = index / stride;
    let z_offset: usize = (index % stride) / size_y;
    let y_offset: usize = index % size_y;
    offset(lo, x_offset as i32, y_offset as i32, z_offset as i32)
}

/// An owned copy of a bounded world region.
///
/// Cells outside the captured area are [`BlockKind::Unloaded`].
pub struct WorldSnapshot {
    /// Dense X/Z/Y storage over `lo..=hi`.
    blocks: Vec<BlockKind>,
    lo: BlockPos,
    hi: BlockPos,
    size_y: usize,
    size_z: usize,
}

impl WorldSnapshot {
    #[verifier::type_invariant]
    spec fn wf(self) -> bool {
        &&& self.blocks@.len() == volume(self.lo, self.hi)
        &&& self.blocks@.len() <= MAX_SNAPSHOT_BLOCKS
        &&& self.blocks@.len() > 0 ==> self.size_y == span(self.lo.y, self.hi.y) && self.size_z
            == span(self.lo.z, self.hi.z)
    }

    pub closed spec fn low(self) -> BlockPos {
        self.lo
    }

    pub closed spec fn high(self) -> BlockPos {
        self.hi
    }

    /// The captured blocks in X/Z/Y order.
    pub closed spec fn cells(self) -> Seq<BlockKind> {
        self.blocks@
    }

    /// What the snapshot says of `pos`.
    pub open spec fn kind_at(self, pos: BlockPos) -> BlockKind {
        if in_box(self.low(), self.high(), pos) {
            self.cells()[index_at(
                self.low(),
                span(self.low().y, self.high().y),
                span(self.low().z, self.high().z),
                pos,
            )]
        } else {
            BlockKind::Unloaded
        }
    }

    /// Whether the snapshot says what a world says of the area `lo..=hi`, and
    /// nothing of what lies outside.
    pub open spec fn captures(self, terrain: Terrain, lo: BlockPos, hi: BlockPos) -> bool {
        forall|pos: BlockPos| #[trigger]
            self.kind_at(pos) == (if in_box(lo, hi, pos) {
                terrain.kind(pos)
            } else {
                BlockKind::Unloaded
            })
    }

    /// Wraps blocks listed in X/Z/Y order. Fails for an area over the limit and
    /// returns `None` when the list does not fill the area exactly.
    pub fn from_blocks(lo: BlockPos, hi: BlockPos, blocks: Vec<BlockKind>) -> (made: Result<
        Option<WorldSnapshot>,
        SnapshotError,
    >)
        ensures
            match made {
                Ok(Some(snapshot)) => {
                    &&& measured_volume(lo, hi) <= MAX_SNAPSHOT_BLOCKS
                    &&& blocks@.len() == volume(lo, hi)
                    &&& snapshot.low() == lo
                    &&& snapshot.high() == hi
                    &&& snapshot.cells() == blocks@
                },
                Ok(None) => {
                    &&& measured_volume(lo, hi) <= MAX_SNAPSHOT_BLOCKS
                    &&& blocks@.len() != volume(lo, hi)
                },
                Err(SnapshotError::TooLarge { blocks, maximum }) => {
                    &&& measured_volume(lo, hi) > MAX_SNAPSHOT_BLOCKS
                    &&& blocks == measured_volume(lo, hi)
                    &&& maximum == MAX_SNAPSHOT_BLOCKS
                },
            },
    {
        match snapshot_shape(lo, hi) {
            Err(error) => Err(error),
            Ok((size_y, size_z, total)) => {
                if blocks.len() != total {
                    Ok(None)
                } else {
                    Ok(Some(WorldSnapshot { blocks, lo, hi, size_y, size_z }))
                }
            },
        }
    }

    /// Copies the inclusive area `lo..=hi`. Prefer [`WorldSnapshot::try_capture`]
    /// when bounds come from configuration or user input.
    pub fn capture<W: WorldView + ?Sized>(world: &W, lo: BlockPos, hi: BlockPos) -> (snapshot:
        WorldSnapshot)
        requires
            measured_volume(lo, hi) <= MAX_SNAPSHOT_BLOCKS,
        ensures
            snapshot.captures(world.terrain(), lo, hi),
    {
        match WorldSnapshot::try_capture(world, lo, hi) {
            Ok(snapshot) => snapshot,
            Err(_) => vstd::pervasive::unreached(),
        }
    }

    /// Copies the inclusive area `lo..=hi` without permitting an unbounded
    /// allocation.
    pub fn try_capture<W: WorldView + ?Sized>(world: &W, lo: BlockPos, hi: BlockPos) -> (made:
        Result<WorldSnapshot, SnapshotError>)
        ensures
            match made {
                Ok(snapshot) => {
                    &&& measured_volume(lo, hi) <= MAX_SNAPSHOT_BLOCKS
                    &&& snapshot.captures(world.terrain(), lo, hi)
                },
                Err(SnapshotError::TooLarge { blocks, maximum }) => {
                    &&& measured_volume(lo, hi) > MAX_SNAPSHOT_BLOCKS
                    &&& blocks == measured_volume(lo, hi)
                    &&& maximum == MAX_SNAPSHOT_BLOCKS
                },
            },
    {
        let (size_y, size_z, total) = match snapshot_shape(lo, hi) {
            Err(error) => {
                return Err(error);
            },
            Ok(shape) => shape,
        };
        let mut blocks: Vec<BlockKind> = Vec::new();
        let ghost sy = span(lo.y, hi.y);
        let ghost sz = span(lo.z, hi.z);
        while blocks.len() < total
            invariant
                blocks@.len() <= total,
                total == volume(lo, hi),
                total <= MAX_SNAPSHOT_BLOCKS,
                sy == span(lo.y, hi.y),
                sz == span(lo.z, hi.z),
                total > 0 ==> size_y == sy && size_z == sz,
                forall|i: int|
                    0 <= i < blocks@.len() ==> #[trigger] blocks@[i] == world.terrain().kind(
                        position_at(lo, sy, sz, i),
                    ),
            decreases total - blocks@.len(),
        {
            proof {
                let sx = span(lo.x, hi.x);
                assert(sy > 0 && sz > 0 && sy * sz <= sx * sy * sz) by (nonlinear_arith)
                    requires
                        sx * sy * sz > 0,
                        sx >= 0,
                        sy >= 0,
                        sz >= 0,
                ;
            }
            let pos = snapshot_position(lo, size_y, size_z, blocks.len());
            blocks.push(world.block(pos));
        }
        let snapshot = WorldSnapshot { blocks, lo, hi, size_y, size_z };
        proof {
            assert forall|pos: BlockPos| #[trigger]
                snapshot.kind_at(pos) == (if in_box(lo, hi, pos) {
                    world.terrain().kind(pos)
                } else {
                    BlockKind::Unloaded
                }) by {
                if in_box(lo, hi, pos) {
                    let index = index_at(lo, sy, sz, pos);
                    lemma_index_in_volume(lo, hi, pos);
                    snapshot_layout_round_trips(lo, hi, index);
                    let other = position_at(lo, sy, sz, index);
                    lemma_index_is_injective(lo, hi, pos, other);
                }
            }
        }
        Ok(snapshot)
    }

    /// The captured block at `pos`, or unloaded space outside the area.
    fn read(&self, pos: BlockPos) -> (kind: BlockKind)
        ensures
            kind == self.kind_at(pos),
    {
        proof {
            use_type_invariant(self);
        }
        if pos.x < self.lo.x || pos.x > self.hi.x || pos.y < self.lo.y || pos.y > self.hi.y || pos.z
            < self.lo.z || pos.z > self.hi.z {
            return BlockKind::Unloaded;
        }
        proof {
            lemma_index_in_volume(self.lo, self.hi, pos);
            let sx = span(self.lo.x, self.hi.x);
            let sy = span(self.lo.y, self.hi.y);
            let sz = span(self.lo.z, self.hi.z);
            let x = pos.x - self.lo.x;
            let z = pos.z - self.lo.z;
            assert(0 <= x * sz) by (nonlinear_arith)
                requires
                    x >= 0,
                    sz >= 0,
            ;
            assert(x < sx * sz) by (nonlinear_arith)
                requires
                    0 <= x < sx,
                    sz >= 1,
            ;
            assert(0 <= (x * sz + z) * sy) by (nonlinear_arith)
                requires
                    x * sz + z >= 0,
                    sy >= 0,
            ;
            assert(sy <= sx * sy * sz) by (nonlinear_arith)
                requires
                    sx >= 1,
                    sy >= 1,
                    sz >= 1,
            ;
        }
        let x: usize = (pos.x as i64 - self.lo.x as i64) as usize;
        let y: usize = (pos.y as i64 - self.lo.y as i64) as usize;
        let z: usize = (pos.z as i64 - self.lo.z as i64) as usize;
        self.blocks[(x * self.size_z + z) * self.size_y + y]
    }
}

proof fn lemma_index_is_injective(lo: BlockPos, hi: BlockPos, a: BlockPos, b: BlockPos)
    requires
        in_box(lo, hi, a),
        in_box(lo, hi, b),
        index_at(lo, span(lo.y, hi.y), span(lo.z, hi.z), a) == index_at(
            lo,
            span(lo.y, hi.y),
            span(lo.z, hi.z),
            b,
        ),
    ensures
        a == b,
{
    let sy = span(lo.y, hi.y);
    let sz = span(lo.z, hi.z);
    let ra = (a.x - lo.x) * sz + (a.z - lo.z);
    let rb = (b.x - lo.x) * sz + (b.z - lo.z);
    lemma_mixed_radix(ra, a.y - lo.y, rb, b.y - lo.y, sy);
    lemma_mixed_radix(a.x - lo.x, a.z - lo.z, b.x - lo.x, b.z - lo.z, sz);
}

proof fn lemma_mixed_radix(qa: int, ra: int, qb: int, rb: int, base: int)
    requires
        0 <= ra < base,
        0 <= rb < base,
        qa * base + ra == qb * base + rb,
    ensures
        qa == qb,
        ra == rb,
{
    assert(qa == qb) by (nonlinear_arith)
        requires
            0 <= ra < base,
            0 <= rb < base,
            qa * base + ra == qb * base + rb,
    ;
}

impl WorldView for WorldSnapshot {
    open spec fn terrain(&self) -> Terrain {
        let kinds = |pos: BlockPos| self.kind_at(pos);
        Terrain { kinds, holds: |pos: BlockPos| stands_by_blocks(kinds, pos) }
    }

    fn block(&self, pos: BlockPos) -> (kind: BlockKind) {
        self.read(pos)
    }

    fn standable(&self, pos: BlockPos) -> (holds: bool) {
        body_can_hold(
            self.read(pos),
            self.read(offset(pos, 0, -1, 0)),
            self.read(offset(pos, 0, 1, 0)),
            self.read(offset(pos, 0, 2, 0)),
        )
    }
}

} // verus!
