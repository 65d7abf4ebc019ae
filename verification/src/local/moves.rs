//! Movement policy, per-block tolls, and the movement-rule interface.
use std::sync::Arc;

use vstd::prelude::*;

use crate::arith::saturating_mul_u32;
use crate::local::world::{offset, open_kind, BlockKind, Terrain, WorldView};
use crate::planning::MotionMetadata;
use crate::pos::BlockPos;
use crate::pos_map::PosMap;
use crate::types::{Cost, MoveKind};
use crate::arith;
use crate::local::world;

verus! {

/// Controls whether the planner may enter lava or its safety buffer.
#[derive(Clone, Copy, PartialEq, Eq, Structural, Debug)]
pub enum LavaPolicy {
    /// Never enter the clearance buffer. If the start is already unsafe, only
    /// transitions that strictly reduce lava exposure are permitted.
    Forbidden { clearance: i32 },
    /// Allow lava, with the configured penalties added to the route.
    Penalized,
}

impl Default for LavaPolicy {
    fn default() -> (policy: LavaPolicy)
        ensures
            policy == (LavaPolicy::Forbidden { clearance: 2 }),
    {
        LavaPolicy::Forbidden { clearance: 2 }
    }
}

/// Controls whether the planner may route the bot through water.
///
/// Escaping water is always permitted, exactly as a bot that starts inside the
/// lava buffer may still walk out of it.
#[derive(Clone, Copy, PartialEq, Eq, Structural, Debug)]
pub enum WaterPolicy {
    /// Never enter water from dry land. A bot already in water may move through
    /// it, at the toll, to get out.
    Forbidden,
    /// Allow swimming, with [`MoveContext::water_penalty`] added per edge.
    Penalized,
}

impl Default for WaterPolicy {
    fn default() -> (policy: WaterPolicy)
        ensures
            policy == WaterPolicy::Forbidden,
    {
        WaterPolicy::Forbidden
    }
}

/// Movement costs in tenths of a flat block.
#[derive(Clone, Copy, PartialEq, Eq, Structural, Debug)]
pub struct MovementCosts {
    pub cardinal_walk: Cost,
    pub diagonal_walk: Cost,
    pub step: Cost,
    pub jump: Cost,
    pub fall_base: Cost,
    pub fall_per_block: Cost,
    /// Cost of a running jump across a gap, per block of horizontal distance.
    pub parkour_per_block: Cost,
    /// Cost of one block of swimming, horizontal or vertical.
    pub swim: Cost,
    /// Cost of one block of ladder, up or down.
    pub climb: Cost,
    /// Cost of climbing out of water onto a bank one block above the surface.
    pub swim_exit: Cost,
}

impl Default for MovementCosts {
    fn default() -> (costs: MovementCosts)
        ensures
            costs == (MovementCosts {
                cardinal_walk: 10,
                diagonal_walk: 14,
                step: 12,
                jump: 24,
                fall_base: 14,
                fall_per_block: 6,
                parkour_per_block: 22,
                swim: 20,
                climb: 30,
                swim_exit: 45,
            }),
    {
        MovementCosts {
            cardinal_walk: 10,
            diagonal_walk: 14,
            step: 12,
            jump: 24,
            fall_base: 14,
            fall_per_block: 6,
            parkour_per_block: 22,
            swim: 20,
            climb: 30,
            swim_exit: 45,
        }
    }
}

/// Tuning knobs for a single path search.
#[derive(Debug)]
pub struct MoveContext {
    /// Maximum blocks the bot may drop in one fall move.
    ///
    /// Candidate generation limits this to `0..=127`: non-positive values
    /// disable drops, while larger values use 127.
    pub max_fall: i32,
    /// Extra cost per half-heart of fall damage a drop would cause.
    pub fall_damage_penalty: Cost,
    /// Manhattan distance at which the goal counts as reached.
    pub goal_tolerance: i32,
    /// Maximum nodes expanded during one search.
    pub max_expansions: usize,
    /// Wall-clock limit for one search, in milliseconds.
    pub time_budget_ms: u64,
    /// Base cost for each movement type.
    pub costs: MovementCosts,
    /// Extra cost per adjacent wall. Set to zero to disable wall clearance.
    pub wall_penalty: Cost,
    /// Whether lava and its clearance buffer are forbidden or merely costly.
    pub lava_policy: LavaPolicy,
    /// Direct-contact toll used only by [`LavaPolicy::Penalized`].
    pub lava_penalty: Cost,
    /// Radius for the soft avoidance cost beyond the hard clearance buffer.
    pub lava_proximity_radius: i32,
    /// Cost multiplier for nearby lava outside the hard buffer.
    pub lava_proximity_penalty: Cost,
    /// Whether water is forbidden or merely costly.
    pub water_policy: WaterPolicy,
    /// Toll for standing on a partial block with a taller partial block beside
    /// it.
    pub grazing_step_penalty: Cost,
    /// Extra cost per swim edge.
    pub water_penalty: Cost,
    /// Seed used to vary ties between equal-cost paths.
    pub path_seed: u64,
    /// Extra cost charged for standing on specific blocks.
    ///
    /// This is how the navigator remembers a route that did not work. A toll
    /// rather than a wall: if the failed block is the only way through, the bot
    /// should still try it.
    pub avoid: Arc<PosMap<Cost>>,
}

/// The tuning of a search that nobody tuned.
pub open spec fn default_context(ctx: MoveContext) -> bool {
    &&& ctx.max_fall == 10
    &&& ctx.goal_tolerance == 1
    &&& ctx.max_expansions == 150_000
    &&& ctx.time_budget_ms == 2_000
    &&& ctx.costs == (MovementCosts {
        cardinal_walk: 10,
        diagonal_walk: 14,
        step: 12,
        jump: 24,
        fall_base: 14,
        fall_per_block: 6,
        parkour_per_block: 22,
        swim: 20,
        climb: 30,
        swim_exit: 45,
    })
    &&& ctx.wall_penalty == 2
    &&& ctx.lava_policy == (LavaPolicy::Forbidden { clearance: 2 })
    &&& ctx.lava_penalty == 10_000
    &&& ctx.lava_proximity_radius == 4
    &&& ctx.lava_proximity_penalty == 6
    &&& ctx.water_policy == WaterPolicy::Forbidden
    &&& ctx.water_penalty == 400
    &&& ctx.grazing_step_penalty == 50
    &&& ctx.fall_damage_penalty == 45
    &&& ctx.path_seed == 0
    &&& ctx.avoid@ == Map::<BlockPos, Cost>::empty()
}

impl Default for MoveContext {
    fn default() -> (ctx: MoveContext)
        ensures
            default_context(ctx),
    {
        MoveContext {
            max_fall: 10,
            goal_tolerance: 1,
            max_expansions: 150_000,
            time_budget_ms: 2_000,
            costs: MovementCosts::default(),
            wall_penalty: 2,
            lava_policy: LavaPolicy::default(),
            lava_penalty: 10_000,
            lava_proximity_radius: 4,
            lava_proximity_penalty: 6,
            water_policy: WaterPolicy::default(),
            water_penalty: 400,
            grazing_step_penalty: 50,
            fall_damage_penalty: 45,
            path_seed: 0,
            avoid: Arc::new(PosMap::new()),
        }
    }
}

impl Clone for MoveContext {
    fn clone(&self) -> (copy: MoveContext)
        ensures
            copy == *self,
    {
        MoveContext {
            max_fall: self.max_fall,
            goal_tolerance: self.goal_tolerance,
            max_expansions: self.max_expansions,
            time_budget_ms: self.time_budget_ms,
            costs: self.costs,
            wall_penalty: self.wall_penalty,
            lava_policy: self.lava_policy,
            lava_penalty: self.lava_penalty,
            lava_proximity_radius: self.lava_proximity_radius,
            lava_proximity_penalty: self.lava_proximity_penalty,
            water_policy: self.water_policy,
            water_penalty: self.water_penalty,
            grazing_step_penalty: self.grazing_step_penalty,
            fall_damage_penalty: self.fall_damage_penalty,
            path_seed: self.path_seed,
            avoid: self.avoid.clone(),
        }
    }
}

/// A candidate transition produced by a movement rule.
#[derive(Clone, Copy, PartialEq, Eq, Structural, Debug)]
pub struct Edge {
    pub to: BlockPos,
    pub kind: MoveKind,
    pub cost: Cost,
}

/// A movement rule used by the planner.
pub trait Move: Send + Sync {
    /// Every transition the rule offers from `from`, in order. Unless said
    /// otherwise, it offers none.
    open spec fn offers(&self, from: BlockPos, terrain: Terrain, ctx: &MoveContext) -> Seq<Edge> {
        Seq::empty()
    }

    /// What the rule says about one of its transitions.
    open spec fn describes(
        &self,
        from: BlockPos,
        edge: Edge,
        terrain: Terrain,
        ctx: &MoveContext,
    ) -> Option<MotionMetadata> {
        None
    }

    /// Whether the rule's transitions respect the built-in lower bound.
    open spec fn respects_bound(&self) -> bool {
        false
    }

    /// Push every position reachable from `from` in one application of
    /// this move onto `out`.
    ///
    /// Implementations are trusted cooperative extensions: one call must
    /// terminate promptly and return no more than
    /// [`crate::local::astar::MAX_CANDIDATES_PER_MOVE`] candidates.
    fn candidates<W: WorldView + ?Sized>(
        &self,
        from: BlockPos,
        world: &W,
        ctx: &MoveContext,
        out: &mut Vec<Edge>,
    )
        ensures
            final(out)@ == old(out)@ + self.offers(from, world.terrain(), ctx),
    ;

    /// Whether this rule satisfies the built-in heuristic's distance and cost
    /// assumptions. Return `false` for long-range or unusually cheap moves.
    fn supports_builtin_heuristic(&self) -> (r: bool)
        ensures
            r == self.respects_bound(),
    ;

    /// Generator-authored metadata for adaptive costing and execution
    /// telemetry. Custom moves may return `None`; they remain fully supported
    /// but are neither learned nor assigned a built-in heuristic.
    fn metadata<W: WorldView + ?Sized>(
        &self,
        from: BlockPos,
        edge: &Edge,
        world: &W,
        ctx: &MoveContext,
    ) -> (described: Option<MotionMetadata>)
        ensures
            described == self.describes(from, *edge, world.terrain(), ctx),
    ;
}

pub const MAX_LAVA_SCAN_RADIUS: i32 = 32;

/// The tallest drop vanilla charges nothing for.
pub const SAFE_FALL: i32 = 3;

/// Largest drop inspected by a built-in movement rule.
///
/// Descending parkour stores its signed rise in an `i8`, so 127 is the largest
/// symmetric downward magnitude it can represent.
pub const MAX_GENERATED_DROP: i32 = 127;

/// The deepest drop a rule looks for under a configured limit.
pub open spec fn drop_limit(configured: i32) -> int {
    if configured < 0 {
        0
    } else if configured > 127 {
        127
    } else {
        configured as int
    }
}

pub fn generated_drop_limit(configured: i32) -> (limit: i32)
    ensures
        limit == drop_limit(configured),
{
    if configured < 0 {
        0
    } else if configured > MAX_GENERATED_DROP {
        MAX_GENERATED_DROP
    } else {
        configured
    }
}

/// Half-hearts of damage from a drop that does not end in water.
pub open spec fn fall_damage(drop: int) -> int {
    if drop > 3 {
        drop - 3
    } else {
        0
    }
}

impl Terrain {
    /// Whether the bot's feet are in water at `pos`.
    pub open spec fn wet(self, pos: BlockPos) -> bool {
        self.kind(pos) is Water
    }

    /// Whether the bot's feet are on a ladder, vine or scaffolding at `pos`.
    pub open spec fn climbable(self, pos: BlockPos) -> bool {
        self.kind(pos) is Climbable
    }

    /// Whether `pos` is empty space as far as the body is concerned.
    pub open spec fn free(self, pos: BlockPos) -> bool {
        world::is_open(self.kind(pos))
    }

    /// Whether `pos` is somewhere the bot stands on its feet rather than floats
    /// or hangs.
    pub open spec fn dry_stands(self, pos: BlockPos) -> bool {
        !self.wet(pos) && !self.climbable(pos) && self.stands(pos)
    }

    pub open spec fn partial(self, pos: BlockPos) -> bool {
        self.kind(pos) is Step
    }
}

pub fn in_water<W: WorldView + ?Sized>(world: &W, pos: BlockPos) -> (r: bool)
    ensures
        r == world.terrain().wet(pos),
{
    world.block(pos) == BlockKind::Water
}

pub fn on_climbable<W: WorldView + ?Sized>(world: &W, pos: BlockPos) -> (r: bool)
    ensures
        r == world.terrain().climbable(pos),
{
    world.block(pos) == BlockKind::Climbable
}

pub fn open<W: WorldView + ?Sized>(world: &W, pos: BlockPos) -> (r: bool)
    ensures
        r == world.terrain().free(pos),
{
    open_kind(world.block(pos))
}

pub fn dry_standable<W: WorldView + ?Sized>(world: &W, pos: BlockPos) -> (r: bool)
    ensures
        r == world.terrain().dry_stands(pos),
{
    let kind = world.block(pos);
    kind != BlockKind::Water && kind != BlockKind::Climbable && world.standable(pos)
}

pub fn on_partial<W: WorldView + ?Sized>(world: &W, pos: BlockPos) -> (r: bool)
    ensures
        r == world.terrain().partial(pos),
{
    match world.block(pos) {
        BlockKind::Step(_) => true,
        _ => false,
    }
}

pub open spec fn one_if(b: bool) -> int {
    if b {
        1
    } else {
        0
    }
}

/// Whether the column `(dx, dz)` away blocks the body at foot or head height.
pub open spec fn walled(terrain: Terrain, pos: BlockPos, dx: int, dz: int) -> bool {
    let feet = terrain.kind(world::shift(pos, dx, 0, dz));
    let head = terrain.kind(world::shift(pos, dx, 1, dz));
    feet is Solid || feet is Fence || head is Solid || head is Fence
}

/// The number of cardinal neighbours that are walls.
pub open spec fn wall_count(terrain: Terrain, pos: BlockPos) -> int {
    one_if(walled(terrain, pos, 1, 0)) + one_if(walled(terrain, pos, -1, 0)) + one_if(
        walled(terrain, pos, 0, 1),
    ) + one_if(walled(terrain, pos, 0, -1))
}

/// The number of the eight neighbours that can be stood on.
pub open spec fn room_count(terrain: Terrain, pos: BlockPos) -> int {
    one_if(terrain.stands(world::shift(pos, 1, 0, 0))) + one_if(terrain.stands(world::shift(pos, -1, 0, 0)))
        + one_if(terrain.stands(world::shift(pos, 0, 0, 1))) + one_if(
        terrain.stands(world::shift(pos, 0, 0, -1)),
    ) + one_if(terrain.stands(world::shift(pos, 1, 0, 1))) + one_if(terrain.stands(world::shift(pos, 1, 0, -1)))
        + one_if(terrain.stands(world::shift(pos, -1, 0, 1))) + one_if(
        terrain.stands(world::shift(pos, -1, 0, -1)),
    )
}

/// The wall toll: walls times the toll, scaled by how much of six blocks of
/// room there is to step away into.
pub open spec fn wall_toll(terrain: Terrain, pos: BlockPos, per_wall: Cost) -> Cost {
    arith::clamp_u32(
        per_wall * wall_count(terrain, pos) * arith::min_int(room_count(terrain, pos), 6) / 6,
    )
}

fn is_wall<W: WorldView + ?Sized>(world: &W, pos: BlockPos, dx: i32, dz: i32) -> (n: u32)
    ensures
        n == one_if(walled(world.terrain(), pos, dx as int, dz as int)),
{
    let feet = world.block(offset(pos, dx, 0, dz));
    let head = world.block(offset(pos, dx, 1, dz));
    if feet == BlockKind::Solid || feet == BlockKind::Fence || head == BlockKind::Solid || head
        == BlockKind::Fence {
        1
    } else {
        0
    }
}

fn is_room<W: WorldView + ?Sized>(world: &W, pos: BlockPos, dx: i32, dz: i32) -> (n: u32)
    ensures
        n == one_if(world.terrain().stands(world::shift(pos, dx as int, 0, dz as int))),
{
    if world.standable(offset(pos, dx, 0, dz)) {
        1
    } else {
        0
    }
}

/// Adds a cost for hugging a wall, scaled by how much room there is to not.
///
/// In the open, where stepping one block over really does move the bot off the
/// wall, the toll is full strength. In a one-wide passage, where there is no
/// centre to find, it fades to almost nothing.
pub fn wall_proximity_penalty<W: WorldView + ?Sized>(
    pos: BlockPos,
    world: &W,
    per_wall: Cost,
) -> (toll: Cost)
    ensures
        toll == wall_toll(world.terrain(), pos, per_wall),
{
    if per_wall == 0 {
        proof {
            let t = world.terrain();
            assert(0 * wall_count(t, pos) * arith::min_int(room_count(t, pos), 6) == 0)
                by (nonlinear_arith);
        }
        return 0;
    }
    let walls: u32 = is_wall(world, pos, 1, 0) + is_wall(world, pos, -1, 0) + is_wall(
        world,
        pos,
        0,
        1,
    ) + is_wall(world, pos, 0, -1);
    if walls == 0 {
        proof {
            let t = world.terrain();
            assert(per_wall * 0 * arith::min_int(room_count(t, pos), 6) == 0) by (nonlinear_arith);
        }
        return 0;
    }
    let room: u32 = is_room(world, pos, 1, 0) + is_room(world, pos, -1, 0) + is_room(
        world,
        pos,
        0,
        1,
    ) + is_room(world, pos, 0, -1) + is_room(world, pos, 1, 1) + is_room(world, pos, 1, -1)
        + is_room(world, pos, -1, 1) + is_room(world, pos, -1, -1);
    let counted: u32 = if room < 6 {
        room
    } else {
        6
    };
    proof {
        assert(0 <= per_wall * walls <= 0xffff_ffff * 4) by (nonlinear_arith)
            requires
                0 <= per_wall <= 0xffff_ffff,
                0 <= walls <= 4,
        ;
        assert(0 <= (per_wall * walls) * counted <= 0xffff_ffff * 4 * 6) by (nonlinear_arith)
            requires
                0 <= per_wall * walls <= 0xffff_ffff * 4,
                0 <= counted <= 6,
        ;
    }
    let scaled: u64 = per_wall as u64 * walls as u64 * counted as u64 / 6;
    if scaled > u32::MAX as u64 {
        u32::MAX
    } else {
        scaled as u32
    }
}

/// Whether the player's feet, head, or floor touches lava.
pub open spec fn touches_lava(terrain: Terrain, pos: BlockPos) -> bool {
    terrain.kind(pos) is Lava || terrain.kind(world::shift(pos, 0, 1, 0)) is Lava || terrain.kind(
        world::shift(pos, 0, -1, 0),
    ) is Lava
}

/// Adds a flat cost when the player's feet, head, or floor touches lava.
pub fn lava_penalty<W: WorldView + ?Sized>(pos: BlockPos, world: &W, per: Cost) -> (toll: Cost)
    ensures
        toll == (if touches_lava(world.terrain(), pos) {
            per
        } else {
            0
        }),
{
    if per == 0 {
        return 0;
    }
    if world.block(pos) == BlockKind::Lava || world.block(offset(pos, 0, 1, 0)) == BlockKind::Lava
        || world.block(offset(pos, 0, -1, 0)) == BlockKind::Lava {
        per
    } else {
        0
    }
}

/// Whether the column `(dx, dz)` away holds lava within one block of the feet.
pub open spec fn column_lava(terrain: Terrain, pos: BlockPos, dx: int, dz: int) -> bool {
    terrain.kind(world::shift(pos, dx, -1, dz)) is Lava || terrain.kind(world::shift(pos, dx, 0, dz)) is Lava
        || terrain.kind(world::shift(pos, dx, 1, dz)) is Lava
}

/// Horizontal distance measured in king's moves.
pub open spec fn chebyshev(dx: int, dz: int) -> int {
    arith::max_int(arith::abs_int(dx), arith::abs_int(dz))
}

/// Whether there is lava within `radius` king's moves.
pub open spec fn lava_within(terrain: Terrain, pos: BlockPos, radius: int) -> bool {
    exists|dx: int, dz: int|
        chebyshev(dx, dz) <= radius && #[trigger] column_lava(terrain, pos, dx, dz)
}

/// The number of radii from 0 to `clearance` that hold lava: one for lava at
/// the edge of the buffer, and one more for each block nearer it is.
pub open spec fn exposure(terrain: Terrain, pos: BlockPos, clearance: int) -> int
    decreases clearance + 1,
{
    if clearance < 0 || !lava_within(terrain, pos, clearance) {
        0
    } else {
        1 + exposure(terrain, pos, clearance - 1)
    }
}

/// A scan radius limited to the supported range.
pub open spec fn scan_radius(radius: i32) -> int {
    if radius < 0 {
        0
    } else if radius > 32 {
        32
    } else {
        radius as int
    }
}

/// Lava exposure within a configured clearance.
pub open spec fn lava_exposure(terrain: Terrain, pos: BlockPos, clearance: i32) -> Cost {
    exposure(terrain, pos, scan_radius(clearance)) as Cost
}

proof fn lemma_exposure_from_nearest(terrain: Terrain, pos: BlockPos, nearest: int, radius: int)
    requires
        0 <= nearest,
        nearest <= radius ==> lava_within(terrain, pos, nearest),
        forall|dx: int, dz: int|
            chebyshev(dx, dz) < nearest && chebyshev(dx, dz) <= radius ==> !#[trigger] column_lava(
                terrain,
                pos,
                dx,
                dz,
            ),
        radius >= -1,
    ensures
        exposure(terrain, pos, radius) == arith::max_int(radius + 1 - nearest, 0),
    decreases radius + 1,
{
    if radius >= 0 {
        if nearest <= radius {
            let (dx, dz) = choose|dx: int, dz: int|
                chebyshev(dx, dz) <= nearest && #[trigger] column_lava(terrain, pos, dx, dz);
            assert(chebyshev(dx, dz) <= radius && column_lava(terrain, pos, dx, dz));
            assert(lava_within(terrain, pos, radius));
            lemma_exposure_from_nearest(terrain, pos, nearest, radius - 1);
        } else {
            assert(!lava_within(terrain, pos, radius));
        }
    }
}

fn lava_column<W: WorldView + ?Sized>(world: &W, pos: BlockPos, dx: i32, dz: i32) -> (r: bool)
    ensures
        r == column_lava(world.terrain(), pos, dx as int, dz as int),
{
    world.block(offset(pos, dx, -1, dz)) == BlockKind::Lava || world.block(offset(pos, dx, 0, dz))
        == BlockKind::Lava || world.block(offset(pos, dx, 1, dz)) == BlockKind::Lava
}

fn reach(dx: i32, dz: i32) -> (distance: i32)
    requires
        -64 <= dx <= 64,
        -64 <= dz <= 64,
    ensures
        distance == chebyshev(dx as int, dz as int),
{
    let ax: i32 = if dx < 0 {
        -dx
    } else {
        dx
    };
    let az: i32 = if dz < 0 {
        -dz
    } else {
        dz
    };
    if ax >= az {
        ax
    } else {
        az
    }
}

/// Returns lava exposure within `clearance`; zero means safe.
pub fn lava_risk<W: WorldView + ?Sized>(pos: BlockPos, world: &W, clearance: i32) -> (risk: Cost)
    ensures
        risk == lava_exposure(world.terrain(), pos, clearance),
        (risk == 0) == !lava_within(world.terrain(), pos, scan_radius(clearance)),
        risk <= 33,
{
    let c: i32 = if clearance < 0 {
        0
    } else if clearance > MAX_LAVA_SCAN_RADIUS {
        MAX_LAVA_SCAN_RADIUS
    } else {
        clearance
    };
    let ghost t = world.terrain();
    // The distance of the nearest lava found so far, or one past the buffer.
    let mut nearest: i32 = c + 1;
    let mut dx: i32 = -c;
    while dx <= c
        invariant
            t == world.terrain(),
            0 <= c <= 32,
            -c <= dx <= c + 1,
            0 <= nearest <= c + 1,
            nearest <= c ==> lava_within(t, pos, nearest as int),
            forall|x: int, z: int|
                -c <= x < dx && -c <= z <= c && chebyshev(x, z) < nearest ==> !#[trigger] column_lava(
                    t,
                    pos,
                    x,
                    z,
                ),
        decreases c + 1 - dx,
    {
        let mut dz: i32 = -c;
        while dz <= c
            invariant
                t == world.terrain(),
                0 <= c <= 32,
                -c <= dx <= c,
                -c <= dz <= c + 1,
                0 <= nearest <= c + 1,
                nearest <= c ==> lava_within(t, pos, nearest as int),
                forall|x: int, z: int|
                    -c <= x < dx && -c <= z <= c && chebyshev(x, z) < nearest
                        ==> !#[trigger] column_lava(t, pos, x, z),
                forall|z: int|
                    -c <= z < dz && chebyshev(dx as int, z) < nearest ==> !#[trigger] column_lava(
                        t,
                        pos,
                        dx as int,
                        z,
                    ),
            decreases c + 1 - dz,
        {
            let distance: i32 = reach(dx, dz);
            if distance < nearest && lava_column(world, pos, dx, dz) {
                nearest = distance;
            }
            dz += 1;
        }
        dx += 1;
    }
    proof {
        lemma_exposure_from_nearest(t, pos, nearest as int, c as int);
        assert(scan_radius(clearance) == c);
    }
    (c + 1 - nearest) as Cost
}

/// Whether a step between two exposures is allowed: onto safe ground always,
/// and inside the buffer only towards less exposure.
pub open spec fn transition_allowed(from_risk: Cost, to_risk: Cost, policy: LavaPolicy) -> bool {
    match policy {
        LavaPolicy::Penalized => true,
        LavaPolicy::Forbidden { .. } => to_risk == 0 || to_risk < from_risk,
    }
}

/// Safe nodes may only enter safe nodes. A start already inside the buffer can
/// escape, but every step must strictly lower its exposure.
pub fn lava_transition_allowed(from_risk: Cost, to_risk: Cost, policy: LavaPolicy) -> (r: bool)
    ensures
        r == transition_allowed(from_risk, to_risk, policy),
{
    match policy {
        LavaPolicy::Penalized => true,
        LavaPolicy::Forbidden { .. } => to_risk == 0 || (from_risk > 0 && to_risk < from_risk),
    }
}

/// Whether any column at exactly `distance` king's moves holds lava.
pub open spec fn ring_lava(terrain: Terrain, pos: BlockPos, distance: int) -> bool {
    exists|dx: int, dz: int|
        chebyshev(dx, dz) == distance && #[trigger] column_lava(terrain, pos, dx, dz)
}

/// The weight of the nearest lava ring at or beyond `distance`: one at the
/// radius, and one more for each block nearer.
pub open spec fn ring_weight(terrain: Terrain, pos: BlockPos, distance: int, radius: int) -> int
    decreases radius + 1 - distance,
{
    if distance > radius {
        0
    } else if ring_lava(terrain, pos, distance) {
        radius + 1 - distance
    } else {
        ring_weight(terrain, pos, distance + 1, radius)
    }
}

/// The soft toll for lava nearby. Only the nearest lava counts, so large pools
/// do not multiply the cost.
pub open spec fn proximity_toll(
    terrain: Terrain,
    pos: BlockPos,
    radius: i32,
    per_block: Cost,
) -> Cost {
    arith::clamp_u32(per_block * ring_weight(terrain, pos, 1, scan_radius(radius)))
}

fn lava_ring<W: WorldView + ?Sized>(world: &W, pos: BlockPos, distance: i32) -> (found: bool)
    requires
        1 <= distance <= 32,
    ensures
        found == ring_lava(world.terrain(), pos, distance as int),
{
    let ghost t = world.terrain();
    let mut dx: i32 = -distance;
    while dx <= distance
        invariant
            t == world.terrain(),
            1 <= distance <= 32,
            -distance <= dx <= distance + 1,
            forall|x: int, z: int|
                -distance <= x < dx && chebyshev(x, z) == distance ==> !#[trigger] column_lava(
                    t,
                    pos,
                    x,
                    z,
                ),
        decreases distance + 1 - dx,
    {
        // Off the two end columns of the ring only the outermost blocks belong to it.
        let inner: i32 = if dx == -distance || dx == distance {
            1
        } else {
            2 * distance
        };
        let mut dz: i32 = -distance;
        while dz <= distance
            invariant
                t == world.terrain(),
                1 <= distance <= 32,
                -distance <= dx <= distance,
                -distance <= dz <= distance + 2 * distance,
                inner == (if dx == -distance || dx == distance {
                    1int
                } else {
                    2 * distance
                }),
                inner != 1 && dz <= distance ==> dz == -distance || dz == distance,
                forall|x: int, z: int|
                    -distance <= x < dx && chebyshev(x, z) == distance ==> !#[trigger] column_lava(
                        t,
                        pos,
                        x,
                        z,
                    ),
                forall|z: int|
                    -distance <= z < dz && chebyshev(dx as int, z) == distance
                        ==> !#[trigger] column_lava(t, pos, dx as int, z),
            decreases 4 * distance + 1 - dz,
        {
            if lava_column(world, pos, dx, dz) {
                assert(chebyshev(dx as int, dz as int) == distance);
                return true;
            }
            dz += inner;
        }
        dx += 1;
    }
    false
}

pub fn lava_proximity_penalty<W: WorldView + ?Sized>(
    pos: BlockPos,
    world: &W,
    radius: i32,
    per_block: Cost,
) -> (toll: Cost)
    ensures
        toll == proximity_toll(world.terrain(), pos, radius, per_block),
{
    let ghost t = world.terrain();
    if per_block == 0 || radius <= 0 {
        proof {
            let w = ring_weight(t, pos, 1, scan_radius(radius));
            if per_block == 0 {
                assert(per_block * w == 0) by (nonlinear_arith)
                    requires
                        per_block == 0,
                ;
            } else {
                assert(w == 0);
                assert(per_block * w == 0) by (nonlinear_arith)
                    requires
                        w == 0,
                ;
            }
        }
        return 0;
    }
    let limit: i32 = if radius > MAX_LAVA_SCAN_RADIUS {
        MAX_LAVA_SCAN_RADIUS
    } else {
        radius
    };
    let mut distance: i32 = 1;
    while distance <= limit
        invariant
            t == world.terrain(),
            1 <= limit <= 32,
            limit == scan_radius(radius),
            1 <= distance <= limit + 1,
            ring_weight(t, pos, 1, limit as int) == ring_weight(
                t,
                pos,
                distance as int,
                limit as int,
            ),
        decreases limit + 1 - distance,
    {
        if lava_ring(world, pos, distance) {
            return saturating_mul_u32(per_block, (limit + 1 - distance) as u32);
        }
        distance += 1;
    }
    assert(per_block * 0 == 0) by (nonlinear_arith);
    0
}

} // verus!
