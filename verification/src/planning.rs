//! Motion metadata carried alongside a block-level path.
//!
//! [`MotionPlan`] steps preserve generator semantics such as parkour distance
//! and the distinction between a vertical swim stroke and a bank exit.
use vstd::prelude::*;

use crate::adaptive::features::{
    CostComponents, MoveFeatures, PrimitiveId, TerrainClass, FEATURE_SCHEMA_VERSION,
};
use crate::arith::{abs_diff_i32, max_u32, min_u32, saturating_mul_u32, saturating_sub_i32};
use crate::local::moves::{in_water, on_climbable, on_partial, MoveContext, SAFE_FALL};
use crate::local::world::{offset, BlockKind, Terrain, WorldView};
use crate::pos::BlockPos;
use crate::types::{copied, Cost, MoveKind, Path, PathNode};
use crate::arith;
use crate::local::moves;
use crate::local::world;

verus! {

#[derive(Clone, Copy, PartialEq, Eq, Structural, Debug)]
pub struct MotionStep {
    pub edge_index: u32,
    pub from: BlockPos,
    pub to: BlockPos,
    pub kind: MoveKind,
    pub primitive: PrimitiveId,
    pub features: MoveFeatures,
    pub predicted: CostComponents,
    /// Frozen nominal duration used only as the denominator for learning a
    /// dimensionless relative multiplier.
    pub predicted_ticks: u32,
}

#[derive(Clone, Copy, PartialEq, Eq, Structural, Debug)]
pub struct MotionMetadata {
    pub primitive: PrimitiveId,
    pub features: MoveFeatures,
    pub predicted: CostComponents,
    pub predicted_ticks: u32,
}

#[derive(Clone, Copy, PartialEq, Eq, Structural, Debug)]
pub enum MotionPlanError {
    InvalidStartTransition,
    MetadataMismatch,
    MissingGeneratedMetadata,
}

/// The larger of the two horizontal distances between `from` and `to`.
pub open spec fn horizontal_reach(from: BlockPos, to: BlockPos) -> int {
    arith::max_int(arith::abs_int(from.x - to.x), arith::abs_int(from.z - to.z))
}

/// How far `to` lies below `from`; zero when it does not.
pub open spec fn drop_height(from: BlockPos, to: BlockPos) -> int {
    arith::max_int(arith::clamp_i32(from.y - to.y) as int, 0)
}

/// Blocks of a drop beyond the safe height.
pub open spec fn hurtful_drop(from: BlockPos, to: BlockPos) -> int {
    arith::max_int(drop_height(from, to) - 3, 0)
}

pub open spec fn terrain_class_of(kind: BlockKind) -> TerrainClass {
    match kind {
        BlockKind::Step(_) => TerrainClass::PartialBlock,
        BlockKind::Climbable => TerrainClass::Climbable,
        BlockKind::Water => TerrainClass::Water,
        BlockKind::Air | BlockKind::Passable | BlockKind::Lava | BlockKind::Unloaded =>
            TerrainClass::Unknown,
        BlockKind::Solid | BlockKind::Fence => TerrainClass::FullBlock,
    }
}

/// The block that decides the movement regime at `to`: the one the feet occupy
/// when it holds them, otherwise the one below.
pub open spec fn surface(terrain: Terrain, to: BlockPos) -> BlockKind {
    match terrain.kind(to) {
        BlockKind::Step(_) | BlockKind::Water | BlockKind::Climbable | BlockKind::Lava =>
            terrain.kind(to),
        _ => terrain.kind(world::shift(to, 0, -1, 0)),
    }
}

/// Room a body moves through without touching anything.
pub open spec fn airy(kind: BlockKind) -> bool {
    kind is Air || kind is Passable || kind is Water
}

/// Whether a neighbouring column obstructs the feet or the head.
pub open spec fn crowded(terrain: Terrain, pos: BlockPos, dx: int, dz: int) -> bool {
    !airy(terrain.kind(world::shift(pos, dx, 0, dz))) || !airy(terrain.kind(world::shift(pos, dx, 1, dz)))
}

pub open spec fn crowded_count(terrain: Terrain, pos: BlockPos) -> int {
    moves::one_if(crowded(terrain, pos, 1, 0)) + moves::one_if(crowded(terrain, pos, -1, 0)) + moves::one_if(
        crowded(terrain, pos, 0, 1),
    ) + moves::one_if(crowded(terrain, pos, 0, -1))
}

/// Whether any of the eight neighbours is a partial block.
pub open spec fn beside_partial(terrain: Terrain, pos: BlockPos) -> bool {
    ||| terrain.partial(world::shift(pos, -1, 0, -1))
    ||| terrain.partial(world::shift(pos, -1, 0, 0))
    ||| terrain.partial(world::shift(pos, -1, 0, 1))
    ||| terrain.partial(world::shift(pos, 0, 0, -1))
    ||| terrain.partial(world::shift(pos, 0, 0, 1))
    ||| terrain.partial(world::shift(pos, 1, 0, -1))
    ||| terrain.partial(world::shift(pos, 1, 0, 0))
    ||| terrain.partial(world::shift(pos, 1, 0, 1))
}

pub open spec fn generated_flags(
    primitive: PrimitiveId,
    from: BlockPos,
    to: BlockPos,
    terrain: Terrain,
) -> u16 {
    (2 * moves::one_if(!airy(terrain.kind(world::shift(to, 0, 2, 0)))) + 4 * moves::one_if(beside_partial(terrain, to))
        + 8 * moves::one_if(
        primitive.0 == PrimitiveId::SWIM && !terrain.wet(from) && terrain.wet(to),
    )) as u16
}

pub open spec fn generated_features(
    primitive: PrimitiveId,
    from: BlockPos,
    to: BlockPos,
    kind: MoveKind,
    terrain: Terrain,
) -> MoveFeatures {
    MoveFeatures {
        schema: FEATURE_SCHEMA_VERSION,
        horizontal_blocks: match kind {
            MoveKind::Parkour { blocks, .. } => arith::min_int(blocks as int, 16) as u8,
            _ => arith::min_int(horizontal_reach(from, to), 16) as u8,
        },
        vertical_blocks: (if to.y - from.y < -128 {
            -128
        } else if to.y - from.y > 127 {
            127
        } else {
            to.y - from.y
        }) as i8,
        adjacent_walls: crowded_count(terrain, to) as u8,
        terrain: terrain_class_of(surface(terrain, to)),
        flags: generated_flags(primitive, from, to, terrain),
    }
}

/// How a generated cost splits: fixed policy first, then unavoidable damage,
/// and the remainder is adaptable movement time.
pub open spec fn split_cost(
    primitive: PrimitiveId,
    from: BlockPos,
    to: BlockPos,
    terrain: Terrain,
    ctx: &MoveContext,
    cost: Cost,
) -> CostComponents {
    let safety = if primitive.0 == PrimitiveId::SWIM && terrain.wet(to) {
        arith::min_int(ctx.water_penalty as int, cost as int)
    } else {
        0
    };
    let damage = if (primitive.0 == PrimitiveId::FALL || primitive.0 == PrimitiveId::PARKOUR)
        && !terrain.wet(to) {
        arith::min_int(arith::clamp_u32(ctx.fall_damage_penalty * hurtful_drop(from, to)) as int, cost - safety)
    } else {
        0
    };
    CostComponents {
        time: (cost - safety - damage) as Cost,
        reliability: 0,
        safety: safety as Cost,
        damage: damage as Cost,
        desync: 0,
        resource: 0,
    }
}

/// Grabbing the rung above the one level with the feet.
pub open spec fn high_climb_grab(from: BlockPos, to: BlockPos, terrain: Terrain) -> bool {
    !terrain.climbable(from) && terrain.climbable(to) && to.y > from.y && (from.x != to.x || from.z
        != to.z)
}

/// Nominal duration of a primitive in game ticks.
pub open spec fn ticks_for(
    kind: MoveKind,
    primitive: PrimitiveId,
    from: BlockPos,
    to: BlockPos,
    terrain: Terrain,
) -> u32 {
    if primitive.0 == PrimitiveId::WALK_CARDINAL {
        5
    } else if primitive.0 == PrimitiveId::WALK_DIAGONAL || primitive.0 == PrimitiveId::STEP {
        7
    } else if primitive.0 == PrimitiveId::JUMP {
        11
    } else if primitive.0 == PrimitiveId::FALL {
        arith::clamp_u32(4 + arith::clamp_u32(drop_height(from, to) * 2))
    } else if primitive.0 == PrimitiveId::PARKOUR {
        let blocks = match kind {
            MoveKind::Parkour { blocks, .. } => blocks as int,
            _ => horizontal_reach(from, to),
        };
        arith::max_int(arith::clamp_u32(blocks * 6) as int, 1) as u32
    } else if primitive.0 == PrimitiveId::CLIMB {
        if high_climb_grab(from, to, terrain) {
            41
        } else {
            arith::clamp_u32(15 * arith::max_int(arith::abs_int(from.y - to.y), 1))
        }
    } else if primitive.0 == PrimitiveId::SWIM_EXIT {
        20
    } else {
        10
    }
}

/// The metadata of a transition whose generator charged `cost`.
pub open spec fn generated_metadata(
    primitive: PrimitiveId,
    from: BlockPos,
    to: BlockPos,
    kind: MoveKind,
    terrain: Terrain,
    ctx: &MoveContext,
    cost: Cost,
) -> MotionMetadata {
    MotionMetadata {
        primitive,
        features: generated_features(primitive, from, to, kind, terrain),
        predicted: split_cost(primitive, from, to, terrain, ctx, cost),
        predicted_ticks: ticks_for(kind, primitive, from, to, terrain),
    }
}

/// Metadata never makes a search pay more or less than the edge it describes:
/// the predicted parts add up to the generator's cost exactly.
pub proof fn metadata_total_is_generated_cost(
    primitive: PrimitiveId,
    from: BlockPos,
    to: BlockPos,
    kind: MoveKind,
    terrain: Terrain,
    ctx: &MoveContext,
    cost: Cost,
)
    ensures
        generated_metadata(primitive, from, to, kind, terrain, ctx, cost).predicted.sum() == cost,
{
}

/// Generated features stay inside the bounds that observations require.
pub proof fn generated_features_are_valid(
    primitive: PrimitiveId,
    from: BlockPos,
    to: BlockPos,
    kind: MoveKind,
    terrain: Terrain,
)
    ensures
        generated_features(primitive, from, to, kind, terrain).valid(),
{
    assert(0u16 & !14u16 == 0 && 2u16 & !14u16 == 0 && 4u16 & !14u16 == 0 && 6u16 & !14u16 == 0
        && 8u16 & !14u16 == 0 && 10u16 & !14u16 == 0 && 12u16 & !14u16 == 0 && 14u16 & !14u16 == 0)
        by (bit_vector);
}

/// Every built-in transition has a positive nominal duration.
pub proof fn nominal_durations_are_positive(
    kind: MoveKind,
    primitive: PrimitiveId,
    from: BlockPos,
    to: BlockPos,
    terrain: Terrain,
)
    ensures
        ticks_for(kind, primitive, from, to, terrain) > 0,
{
}

fn terrain_class(kind: BlockKind) -> (class: TerrainClass)
    ensures
        class == terrain_class_of(kind),
{
    match kind {
        BlockKind::Step(_) => TerrainClass::PartialBlock,
        BlockKind::Climbable => TerrainClass::Climbable,
        BlockKind::Water => TerrainClass::Water,
        BlockKind::Air | BlockKind::Passable | BlockKind::Lava | BlockKind::Unloaded => {
            TerrainClass::Unknown
        },
        BlockKind::Solid | BlockKind::Fence => TerrainClass::FullBlock,
    }
}

fn is_airy(kind: BlockKind) -> (r: bool)
    ensures
        r == airy(kind),
{
    match kind {
        BlockKind::Air | BlockKind::Passable | BlockKind::Water => true,
        _ => false,
    }
}

fn crowds<W: WorldView + ?Sized>(world: &W, pos: BlockPos, dx: i32, dz: i32) -> (n: u8)
    ensures
        n == moves::one_if(crowded(world.terrain(), pos, dx as int, dz as int)),
{
    if is_airy(world.block(offset(pos, dx, 0, dz))) && is_airy(
        world.block(offset(pos, dx, 1, dz)),
    ) {
        0
    } else {
        1
    }
}

fn adjacent_wall_count<W: WorldView + ?Sized>(world: &W, pos: BlockPos) -> (n: u8)
    ensures
        n == crowded_count(world.terrain(), pos),
{
    crowds(world, pos, 1, 0) + crowds(world, pos, -1, 0) + crowds(world, pos, 0, 1) + crowds(
        world,
        pos,
        0,
        -1,
    )
}

fn fractional_neighbor<W: WorldView + ?Sized>(world: &W, pos: BlockPos) -> (r: bool)
    ensures
        r == beside_partial(world.terrain(), pos),
{
    on_partial(world, offset(pos, -1, 0, -1)) || on_partial(world, offset(pos, -1, 0, 0))
        || on_partial(world, offset(pos, -1, 0, 1)) || on_partial(world, offset(pos, 0, 0, -1))
        || on_partial(world, offset(pos, 0, 0, 1)) || on_partial(world, offset(pos, 1, 0, -1))
        || on_partial(world, offset(pos, 1, 0, 0)) || on_partial(world, offset(pos, 1, 0, 1))
}

fn horizontal_distance(from: BlockPos, to: BlockPos) -> (n: u32)
    ensures
        n == horizontal_reach(from, to),
{
    max_u32(abs_diff_i32(from.x, to.x), abs_diff_i32(from.z, to.z))
}

fn dropped(from: BlockPos, to: BlockPos) -> (n: u32)
    ensures
        n == drop_height(from, to),
{
    let drop: i32 = saturating_sub_i32(from.y, to.y);
    if drop < 0 {
        0
    } else {
        drop as u32
    }
}

fn hurtful(from: BlockPos, to: BlockPos) -> (n: u32)
    ensures
        n == hurtful_drop(from, to),
{
    dropped(from, to).saturating_sub(SAFE_FALL as u32)
}

fn is_high_climb_grab<W: WorldView + ?Sized>(from: BlockPos, to: BlockPos, world: &W) -> (r: bool)
    ensures
        r == high_climb_grab(from, to, world.terrain()),
{
    !on_climbable(world, from) && on_climbable(world, to) && to.y > from.y && (from.x != to.x
        || from.z != to.z)
}

fn nominal_ticks<W: WorldView + ?Sized>(
    kind: MoveKind,
    primitive: PrimitiveId,
    from: BlockPos,
    to: BlockPos,
    world: &W,
) -> (ticks: u32)
    ensures
        ticks == ticks_for(kind, primitive, from, to, world.terrain()),
{
    let id: u16 = primitive.0;
    if id == PrimitiveId::WALK_CARDINAL {
        5
    } else if id == PrimitiveId::WALK_DIAGONAL || id == PrimitiveId::STEP {
        7
    } else if id == PrimitiveId::JUMP {
        11
    } else if id == PrimitiveId::FALL {
        4u32.saturating_add(saturating_mul_u32(dropped(from, to), 2))
    } else if id == PrimitiveId::PARKOUR {
        let blocks: u32 = match kind {
            MoveKind::Parkour { blocks, .. } => blocks as u32,
            _ => horizontal_distance(from, to),
        };
        max_u32(saturating_mul_u32(blocks, 6), 1)
    } else if id == PrimitiveId::CLIMB {
        // The high grab is priced as two rungs plus a jump, and so is its duration.
        if is_high_climb_grab(from, to, world) {
            41
        } else {
            saturating_mul_u32(15, max_u32(abs_diff_i32(from.y, to.y), 1))
        }
    } else if id == PrimitiveId::SWIM_EXIT {
        20
    } else {
        10
    }
}

pub fn metadata_from_generated_edge<W: WorldView + ?Sized>(
    primitive: PrimitiveId,
    from: BlockPos,
    to: BlockPos,
    kind: MoveKind,
    world: &W,
    context: &MoveContext,
    generated_cost: Cost,
) -> (metadata: MotionMetadata)
    ensures
        metadata == generated_metadata(
            primitive,
            from,
            to,
            kind,
            world.terrain(),
            context,
            generated_cost,
        ),
{
    let horizontal_blocks: u8 = match kind {
        MoveKind::Parkour { blocks, .. } => if blocks > 16 {
            16
        } else {
            blocks
        },
        _ => min_u32(horizontal_distance(from, to), 16) as u8,
    };
    let wide: i64 = to.y as i64 - from.y as i64;
    let vertical: i8 = if wide < -128 {
        -128
    } else if wide > 127 {
        127
    } else {
        wide as i8
    };
    let destination = world.block(to);
    let surface = match destination {
        BlockKind::Step(_) | BlockKind::Water | BlockKind::Climbable | BlockKind::Lava => {
            destination
        },
        _ => world.block(offset(to, 0, -1, 0)),
    };
    let wet: bool = destination == BlockKind::Water;
    let id: u16 = primitive.0;
    let mut flags: u16 = 0;
    if !is_airy(world.block(offset(to, 0, 2, 0))) {
        flags = flags + MoveFeatures::FLAG_LOW_HEADROOM;
    }
    if fractional_neighbor(world, to) {
        flags = flags + MoveFeatures::FLAG_FRACTIONAL_NEIGHBOR;
    }
    if id == PrimitiveId::SWIM && !in_water(world, from) && wet {
        flags = flags + MoveFeatures::FLAG_WATER_ENTRY;
    }
    let features = MoveFeatures::new(
        horizontal_blocks,
        vertical,
        terrain_class(surface),
    ).with_surroundings(adjacent_wall_count(world, to), flags);
    let safety: Cost = if id == PrimitiveId::SWIM && wet {
        min_u32(context.water_penalty, generated_cost)
    } else {
        0
    };
    let after_safety: Cost = generated_cost - safety;
    let damage: Cost = if (id == PrimitiveId::FALL || id == PrimitiveId::PARKOUR) && !wet {
        min_u32(
            saturating_mul_u32(context.fall_damage_penalty, hurtful(from, to)),
            after_safety,
        )
    } else {
        0
    };
    let predicted = CostComponents {
        time: after_safety - damage,
        reliability: 0,
        safety,
        damage,
        desync: 0,
        resource: 0,
    };
    MotionMetadata {
        primitive,
        features,
        predicted,
        predicted_ticks: nominal_ticks(kind, primitive, from, to, world),
    }
}

/// The cost charged for a transition when no generator priced it.
pub open spec fn baseline_cost(
    kind: MoveKind,
    primitive: PrimitiveId,
    from: BlockPos,
    to: BlockPos,
    terrain: Terrain,
    ctx: &MoveContext,
) -> Cost {
    let costs = ctx.costs;
    let drop = drop_height(from, to);
    let time: int = if primitive.0 == PrimitiveId::WALK_DIAGONAL {
        costs.diagonal_walk as int
    } else if primitive.0 == PrimitiveId::STEP {
        costs.step as int
    } else if primitive.0 == PrimitiveId::JUMP {
        if terrain.partial(to) {
            costs.step as int
        } else {
            costs.jump as int
        }
    } else if primitive.0 == PrimitiveId::FALL {
        costs.fall_base + costs.fall_per_block * drop
    } else if primitive.0 == PrimitiveId::PARKOUR {
        let blocks = match kind {
            MoveKind::Parkour { blocks, .. } => blocks as int,
            _ => arith::max_int(horizontal_reach(from, to), 1),
        };
        costs.parkour_per_block * blocks + (if to.y > from.y {
            costs.jump * (to.y - from.y)
        } else {
            costs.fall_per_block * drop
        })
    } else if primitive.0 == PrimitiveId::CLIMB {
        if high_climb_grab(from, to, terrain) {
            costs.climb + costs.climb + costs.jump
        } else {
            costs.climb as int
        }
    } else if primitive.0 == PrimitiveId::SWIM {
        if terrain.wet(to) {
            costs.swim + ctx.water_penalty
        } else {
            costs.swim as int
        }
    } else if primitive.0 == PrimitiveId::SWIM_EXIT {
        costs.swim_exit as int
    } else {
        costs.cardinal_walk as int
    };
    let damage: int = if (primitive.0 == PrimitiveId::FALL || primitive.0 == PrimitiveId::PARKOUR)
        && !terrain.wet(to) {
        ctx.fall_damage_penalty * hurtful_drop(from, to)
    } else {
        0
    };
    arith::clamp_u32(time + damage)
}

fn legacy_baseline_cost<W: WorldView + ?Sized>(
    kind: MoveKind,
    primitive: PrimitiveId,
    from: BlockPos,
    to: BlockPos,
    world: &W,
    context: &MoveContext,
) -> (cost: Cost)
    ensures
        cost == baseline_cost(kind, primitive, from, to, world.terrain(), context),
{
    let costs = context.costs;
    let drop: u32 = dropped(from, to);
    let hurt: u32 = hurtful(from, to);
    proof {
        let p = costs.fall_per_block as int;
        let d = drop as int;
        assert(p * d >= 0) by (nonlinear_arith)
            requires
                p >= 0,
                d >= 0,
        ;
        let q = context.fall_damage_penalty as int;
        let h = hurt as int;
        assert(q * h >= 0) by (nonlinear_arith)
            requires
                q >= 0,
                h >= 0,
        ;
    }
    let id: u16 = primitive.0;
    let time: Cost = if id == PrimitiveId::WALK_DIAGONAL {
        costs.diagonal_walk
    } else if id == PrimitiveId::STEP {
        costs.step
    } else if id == PrimitiveId::JUMP {
        if on_partial(world, to) {
            costs.step
        } else {
            costs.jump
        }
    } else if id == PrimitiveId::FALL {
        costs.fall_base.saturating_add(saturating_mul_u32(costs.fall_per_block, drop))
    } else if id == PrimitiveId::PARKOUR {
        let blocks: u32 = match kind {
            MoveKind::Parkour { blocks, .. } => blocks as u32,
            _ => max_u32(horizontal_distance(from, to), 1),
        };
        let vertical: Cost = if to.y > from.y {
            saturating_mul_u32(costs.jump, abs_diff_i32(to.y, from.y))
        } else {
            saturating_mul_u32(costs.fall_per_block, drop)
        };
        proof {
            let p = costs.parkour_per_block as int;
            let b = blocks as int;
            assert(p * b >= 0) by (nonlinear_arith)
                requires
                    p >= 0,
                    b >= 0,
            ;
            let j = costs.jump as int;
            let r = to.y - from.y;
            if r > 0 {
                assert(j * r >= 0) by (nonlinear_arith)
                    requires
                        j >= 0,
                        r >= 0,
                ;
            }
        }
        saturating_mul_u32(costs.parkour_per_block, blocks).saturating_add(vertical)
    } else if id == PrimitiveId::CLIMB {
        if is_high_climb_grab(from, to, world) {
            costs.climb.saturating_add(costs.climb).saturating_add(costs.jump)
        } else {
            costs.climb
        }
    } else if id == PrimitiveId::SWIM {
        if in_water(world, to) {
            costs.swim.saturating_add(context.water_penalty)
        } else {
            costs.swim
        }
    } else if id == PrimitiveId::SWIM_EXIT {
        costs.swim_exit
    } else {
        costs.cardinal_walk
    };
    let damage: Cost = if (id == PrimitiveId::FALL || id == PrimitiveId::PARKOUR) && !in_water(
        world,
        to,
    ) {
        saturating_mul_u32(context.fall_damage_penalty, hurt)
    } else {
        0
    };
    time.saturating_add(damage)
}

/// The primitive that a built-in move kind between two positions stands for.
pub open spec fn primitive_of(
    from: BlockPos,
    to: BlockPos,
    kind: MoveKind,
    terrain: Terrain,
) -> PrimitiveId {
    PrimitiveId(
        match kind {
            MoveKind::Start | MoveKind::Walk => if from.y != to.y {
                PrimitiveId::STEP
            } else if from.x != to.x && from.z != to.z {
                PrimitiveId::WALK_DIAGONAL
            } else {
                PrimitiveId::WALK_CARDINAL
            },
            MoveKind::Jump => PrimitiveId::JUMP,
            MoveKind::Fall => PrimitiveId::FALL,
            MoveKind::Parkour { .. } => PrimitiveId::PARKOUR,
            MoveKind::Climb => PrimitiveId::CLIMB,
            MoveKind::Swim => if terrain.wet(from) && !terrain.wet(to) && to.y > from.y {
                PrimitiveId::SWIM_EXIT
            } else {
                PrimitiveId::SWIM
            },
            MoveKind::Aotv => PrimitiveId::AOTV,
            MoveKind::Etherwarp => PrimitiveId::ETHERWARP,
        },
    )
}

/// The step that describes one transition of a path without generator data.
pub open spec fn described_step(
    edge_index: u32,
    from: BlockPos,
    to: BlockPos,
    kind: MoveKind,
    terrain: Terrain,
    ctx: &MoveContext,
) -> MotionStep {
    let primitive = primitive_of(from, to, kind, terrain);
    let metadata = generated_metadata(
        primitive,
        from,
        to,
        kind,
        terrain,
        ctx,
        baseline_cost(kind, primitive, from, to, terrain, ctx),
    );
    MotionStep {
        edge_index,
        from,
        to,
        kind,
        primitive,
        features: metadata.features,
        predicted: metadata.predicted,
        predicted_ticks: metadata.predicted_ticks,
    }
}

fn describe_builtin_step<W: WorldView + ?Sized>(
    edge_index: u32,
    from: BlockPos,
    to: BlockPos,
    kind: MoveKind,
    world: &W,
    context: &MoveContext,
) -> (step: MotionStep)
    requires
        kind != MoveKind::Start,
    ensures
        step == described_step(edge_index, from, to, kind, world.terrain(), context),
{
    let id: u16 = match kind {
        MoveKind::Start | MoveKind::Walk => if from.y != to.y {
            PrimitiveId::STEP
        } else if from.x != to.x && from.z != to.z {
            PrimitiveId::WALK_DIAGONAL
        } else {
            PrimitiveId::WALK_CARDINAL
        },
        MoveKind::Jump => PrimitiveId::JUMP,
        MoveKind::Fall => PrimitiveId::FALL,
        MoveKind::Parkour { .. } => PrimitiveId::PARKOUR,
        MoveKind::Climb => PrimitiveId::CLIMB,
        MoveKind::Swim => if in_water(world, from) && !in_water(world, to) && to.y > from.y {
            PrimitiveId::SWIM_EXIT
        } else {
            PrimitiveId::SWIM
        },
        MoveKind::Aotv => PrimitiveId::AOTV,
        MoveKind::Etherwarp => PrimitiveId::ETHERWARP,
    };
    let primitive = PrimitiveId(id);
    let baseline: Cost = legacy_baseline_cost(kind, primitive, from, to, world, context);
    let metadata = metadata_from_generated_edge(
        primitive,
        from,
        to,
        kind,
        world,
        context,
        baseline,
    );
    MotionStep {
        edge_index,
        from,
        to,
        kind,
        primitive: metadata.primitive,
        features: metadata.features,
        predicted: metadata.predicted,
        predicted_ticks: metadata.predicted_ticks,
    }
}

/// The number of transitions along `nodes`.
pub open spec fn edge_count(nodes: Seq<PathNode>) -> nat {
    if nodes.len() == 0 {
        0
    } else {
        (nodes.len() - 1) as nat
    }
}

/// Whether each step names its own index and the two nodes it joins.
pub open spec fn steps_match(nodes: Seq<PathNode>, steps: Seq<MotionStep>) -> bool {
    &&& steps.len() == edge_count(nodes)
    &&& forall|i: int| 0 <= i < steps.len() ==> step_matches(nodes, #[trigger] steps[i], i)
}

pub open spec fn step_matches(nodes: Seq<PathNode>, step: MotionStep, i: int) -> bool {
    &&& step.edge_index == i as u32
    &&& nodes[i].pos == step.from
    &&& nodes[i + 1].pos == step.to
    &&& nodes[i + 1].reached_by == step.kind
}

/// A path with one described step for each transition.
#[derive(Debug)]
pub struct MotionPlan {
    path: Path,
    steps: Vec<MotionStep>,
}

impl Clone for MotionPlan {
    fn clone(&self) -> (copy: MotionPlan)
        ensures
            copy.route().nodes@ == self.route().nodes@,
            copy.route().total_cost == self.route().total_cost,
            copy.motion() == self.motion(),
    {
        proof {
            use_type_invariant(self);
        }
        let path = self.path.clone();
        let steps: Vec<MotionStep> = copied(&self.steps);
        MotionPlan { path, steps }
    }
}

impl MotionPlan {
    #[verifier::type_invariant]
    spec fn wf(self) -> bool {
        steps_match(self.path.nodes@, self.steps@)
    }

    pub closed spec fn route(self) -> Path {
        self.path
    }

    pub closed spec fn motion(self) -> Seq<MotionStep> {
        self.steps@
    }

    /// Describes every transition of a path from the world it runs through.
    pub fn try_from_path<W: WorldView + ?Sized>(path: Path, world: &W, context: &MoveContext) -> (
    made: Result<MotionPlan, MotionPlanError>)
        ensures
            match made {
                Ok(plan) => {
                    &&& plan.route() == path
                    &&& forall|i: int|
                        0 < i < path.nodes@.len() ==> (#[trigger] path.nodes@[i]).reached_by
                            != MoveKind::Start
                    &&& steps_match(path.nodes@, plan.motion())
                    &&& forall|i: int|
                        0 <= i < plan.motion().len() ==> #[trigger] plan.motion()[i]
                            == described_step(
                            i as u32,
                            path.nodes@[i].pos,
                            path.nodes@[i + 1].pos,
                            path.nodes@[i + 1].reached_by,
                            world.terrain(),
                            context,
                        )
                },
                Err(error) => {
                    &&& error == MotionPlanError::InvalidStartTransition
                    &&& exists|i: int|
                        0 < i < path.nodes@.len() && (#[trigger] path.nodes@[i]).reached_by
                            == MoveKind::Start
                },
            },
    {
        let mut steps: Vec<MotionStep> = Vec::new();
        let mut i: usize = 1;
        while i < path.nodes.len()
            invariant
                1 <= i,
                i <= path.nodes@.len() || (path.nodes@.len() == 0 && i == 1),
                steps@.len() == i - 1,
                forall|k: int|
                    0 < k < i && k < path.nodes@.len() ==> (#[trigger] path.nodes@[k]).reached_by
                        != MoveKind::Start,
                forall|k: int|
                    0 <= k < steps@.len() ==> #[trigger] steps@[k] == described_step(
                        k as u32,
                        path.nodes@[k].pos,
                        path.nodes@[k + 1].pos,
                        path.nodes@[k + 1].reached_by,
                        world.terrain(),
                        context,
                    ),
            decreases path.nodes@.len() - i,
        {
            let before = path.nodes[i - 1];
            let node = path.nodes[i];
            if node.reached_by == MoveKind::Start {
                assert(path.nodes@[i as int].reached_by == MoveKind::Start);
                return Err(MotionPlanError::InvalidStartTransition);
            }
            let step = describe_builtin_step(
                (i - 1) as u32,
                before.pos,
                node.pos,
                node.reached_by,
                world,
                context,
            );
            steps.push(step);
            i += 1;
        }
        Ok(MotionPlan { path, steps })
    }

    pub fn path(&self) -> (path: &Path)
        ensures
            *path == self.route(),
    {
        &self.path
    }

    pub fn steps(&self) -> (steps: &[MotionStep])
        ensures
            steps@ == self.motion(),
            steps_match(self.route().nodes@, self.motion()),
    {
        proof {
            use_type_invariant(self);
        }
        self.steps.as_slice()
    }

    pub fn into_path(self) -> (path: Path)
        ensures
            path == self.route(),
    {
        self.path
    }

    pub fn into_parts(self) -> (parts: (Path, Vec<MotionStep>))
        ensures
            parts.0 == self.route(),
            parts.1@ == self.motion(),
            steps_match(self.route().nodes@, self.motion()),
    {
        proof {
            use_type_invariant(&self);
        }
        (self.path, self.steps)
    }

    /// Joins a path with steps that must describe it node by node.
    pub fn from_parts(path: Path, steps: Vec<MotionStep>) -> (made: Result<
        MotionPlan,
        MotionPlanError,
    >)
        ensures
            match made {
                Ok(plan) => {
                    &&& steps_match(path.nodes@, steps@)
                    &&& plan.route() == path
                    &&& plan.motion() == steps@
                },
                Err(error) => {
                    &&& !steps_match(path.nodes@, steps@)
                    &&& error == MotionPlanError::MetadataMismatch
                },
            },
    {
        let edges: usize = if path.nodes.len() == 0 {
            0
        } else {
            path.nodes.len() - 1
        };
        if steps.len() != edges {
            return Err(MotionPlanError::MetadataMismatch);
        }
        let mut i: usize = 0;
        while i < steps.len()
            invariant
                i <= steps@.len(),
                steps@.len() == edge_count(path.nodes@),
                forall|k: int|
                    0 <= k < i ==> step_matches(path.nodes@, #[trigger] steps@[k], k),
            decreases steps@.len() - i,
        {
            let step = steps[i];
            let before = path.nodes[i];
            let after = path.nodes[i + 1];
            if step.edge_index != i as u32 || before.pos != step.from || after.pos != step.to
                || after.reached_by != step.kind {
                assert(!step_matches(path.nodes@, steps@[i as int], i as int));
                return Err(MotionPlanError::MetadataMismatch);
            }
            i += 1;
        }
        Ok(MotionPlan { path, steps })
    }
}

} // verus!
