//! What holds of every route that a search can return.
use vstd::prelude::*;

use crate::adaptive::model::CostModelSnapshot;
use crate::local::astar;
use crate::local::goal::{BlockGoal, Goal};
use crate::local::graph_model;
use crate::local::graph_model::{Hop, Problem};
use crate::local::moves;
use crate::local::moves::{Edge, Move, MoveContext, WaterPolicy};
use crate::local::rules::builtin::BuiltinMove;
use crate::local::rules::climb;
use crate::local::rules::fall;
use crate::local::rules::footing;
use crate::local::rules::menu;
use crate::local::rules::parkour;
use crate::local::rules::swim;
use crate::local::rules::walk;
use crate::local::tolls;
use crate::local::tree;
use crate::local::world;
use crate::local::world::{Terrain, WorldSnapshot, WorldView};
use crate::pos::BlockPos;
use crate::types::{Cost, PathNode};

verus! {

impl Terrain {
    /// Whether the standing rule alone decides where a body holds itself.
    pub open spec fn by_blocks(self) -> bool {
        forall|pos: BlockPos| #[trigger]
            self.stands(pos) == world::stands_by_blocks(self.kinds, pos)
    }
}

/// Snapshots stand by the standing rule.
pub proof fn snapshots_stand_by_blocks(snapshot: &WorldSnapshot)
    ensures
        snapshot.terrain().by_blocks(),
{
}

/// Lava is forbidden ground: a route that starts outside the lava buffer never
/// comes into it, and one that starts inside never comes closer to the lava.
pub proof fn lava_is_never_approached<M: Move>(problem: Problem<M>, start: BlockPos, hops: Seq<Hop>)
    requires
        problem.ctx.lava_policy is Forbidden,
        problem.walkable(start, hops),
    ensures
        tolls::lava_danger(problem.terrain, problem.end(start, hops), &problem.ctx)
            <= tolls::lava_danger(problem.terrain, start, &problem.ctx),
    decreases hops.len(),
{
    if hops.len() > 0 {
        lava_is_never_approached(problem, start, hops.drop_last());
    }
}

/// Forbidden water is a one-way door: a route of standard moves that starts on
/// dry land never enters it.
pub proof fn dry_routes_stay_dry(problem: Problem<BuiltinMove>, start: BlockPos, hops: Seq<Hop>)
    requires
        problem.ctx.water_policy == WaterPolicy::Forbidden,
        problem.walkable(start, hops),
        !problem.terrain.wet(start),
    ensures
        !problem.terrain.wet(problem.end(start, hops)),
    decreases hops.len(),
{
    if hops.len() > 0 {
        let shorter = hops.drop_last();
        dry_routes_stay_dry(problem, start, shorter);
        hops_land_well(problem, problem.end(start, shorter), hops.last());
    }
}

/// Every standard move ends where a body holds itself, and drops no deeper than
/// configured.
pub proof fn hops_land_well(problem: Problem<BuiltinMove>, from: BlockPos, hop: Hop)
    requires
        problem.legal(from, hop),
    ensures
        footing::lands_well(from, problem.edge(from, hop), problem.terrain, &problem.ctx),
{
    footing::standard_moves_land_well(
        problem.moves[hop.rule],
        from,
        problem.terrain,
        &problem.ctx,
    );
    assert(footing::lands_well(
        from,
        problem.menu(from, hop.rule)[hop.choice],
        problem.terrain,
        &problem.ctx,
    ));
}

/// Unknown blocks are impassable: no standard move ends in a block that is not
/// loaded, nor with its head in one.
pub proof fn unknown_blocks_are_impassable(problem: Problem<BuiltinMove>, from: BlockPos, hop: Hop)
    requires
        problem.terrain.by_blocks(),
        problem.legal(from, hop),
    ensures
        problem.terrain.kind(problem.edge(from, hop).to) !is Unloaded,
        problem.terrain.kind(world::shift(problem.edge(from, hop).to, 0, 1, 0)) !is Unloaded,
{
    hops_land_well(problem, from, hop);
    assert(problem.terrain.stands(problem.edge(from, hop).to));
}

/// No node of a planned path lies more than the configured drop below the node
/// before it.
pub proof fn planned_drops_are_bounded(
    problem: Problem<BuiltinMove>,
    start: BlockPos,
    path: Seq<PathNode>,
    cost: Cost,
    i: int,
)
    requires
        astar::partial_walk(problem, start, path, cost),
        0 < i < path.len(),
    ensures
        problem.terrain.stands(path[i].pos),
        path[i - 1].pos.y - path[i].pos.y <= footing::deepest_drop(&problem.ctx),
{
    let hops = choose|hops: Seq<Hop>| #[trigger] tree::realizes(problem, start, path, hops);
    assert(tree::realizes(problem, start, path, hops));
    problem.lemma_cut(start, hops, i);
    assert(tree::realizes_step(problem, start, path, hops, i));
    assert(hops.take(i).drop_last() =~= hops.take(i - 1));
    let from = problem.end(start, hops.take(i - 1));
    hops_land_well(problem, from, hops[i - 1]);
    if i > 1 {
        assert(tree::realizes_step(problem, start, path, hops, i - 1));
    } else {
        assert(hops.take(0) =~= Seq::<Hop>::empty());
    }
}

/// Every node of a planned path is as safe as its start: outside the lava
/// buffer and out of forbidden water, on footing, and never more than the
/// configured drop below the node before it.
pub proof fn planned_paths_are_safe(
    problem: Problem<BuiltinMove>,
    start: BlockPos,
    path: Seq<PathNode>,
    cost: Cost,
    i: int,
)
    requires
        astar::partial_walk(problem, start, path, cost),
        problem.ctx.lava_policy is Forbidden,
        problem.ctx.water_policy == WaterPolicy::Forbidden,
        tolls::lava_danger(problem.terrain, start, &problem.ctx) == 0,
        !problem.terrain.wet(start),
        0 <= i < path.len(),
    ensures
        tolls::lava_danger(problem.terrain, path[i].pos, &problem.ctx) == 0,
        !problem.terrain.wet(path[i].pos),
        i > 0 ==> problem.terrain.stands(path[i].pos),
        i > 0 ==> path[i - 1].pos.y - path[i].pos.y <= footing::deepest_drop(&problem.ctx),
{
    let hops = choose|hops: Seq<Hop>| #[trigger] tree::realizes(problem, start, path, hops);
    assert(tree::realizes(problem, start, path, hops));
    let walked = hops.take(i);
    problem.lemma_cut(start, hops, i);
    lava_is_never_approached(problem, start, walked);
    dry_routes_stay_dry(problem, start, walked);
    if i > 0 {
        planned_drops_are_bounded(problem, start, path, cost, i);
        assert(tree::realizes_step(problem, start, path, hops, i));
    } else {
        assert(walked =~= Seq::<Hop>::empty());
    }
}

/// A learned model changes prices and nothing else: the routes that exist, and
/// where they may finish, are the same under every model.
pub proof fn models_change_only_prices<M: Move, G: Goal + ?Sized>(
    problem: Problem<M>,
    model: Option<CostModelSnapshot>,
    goal: &G,
    start: BlockPos,
    hops: Seq<Hop>,
)
    ensures
        problem.walkable(start, hops) == (Problem { model, ..problem }).walkable(start, hops),
        problem.end(start, hops) == (Problem { model, ..problem }).end(start, hops),
        problem.finishes(goal, start) == (Problem { model, ..problem }).finishes(goal, start),
    decreases hops.len(),
{
    if hops.len() > 0 {
        models_change_only_prices(problem, model, goal, start, hops.drop_last());
    }
}

/// A context with another tie-breaking seed.
pub open spec fn reseeded(ctx: MoveContext, seed: u64) -> MoveContext {
    MoveContext { path_seed: seed, ..ctx }
}

proof fn lemma_walks_reseeded(from: BlockPos, t: Terrain, ctx: MoveContext, seed: u64)
    ensures
        walk::walk_offers(from, t, &ctx) == walk::walk_offers(from, t, &reseeded(ctx, seed)),
        walk::jump_offers(from, t, &ctx) == walk::jump_offers(from, t, &reseeded(ctx, seed)),
        climb::climb_offers(from, t, &ctx) == climb::climb_offers(from, t, &reseeded(ctx, seed)),
        swim::swim_offers(from, t, &ctx) == swim::swim_offers(from, t, &reseeded(ctx, seed)),
{
}

proof fn lemma_landing_reseeded(
    step: BlockPos,
    drop: int,
    limit: int,
    t: Terrain,
    ctx: MoveContext,
    seed: u64,
)
    ensures
        fall::landing_below(step, drop, limit, t, &ctx) == fall::landing_below(
            step,
            drop,
            limit,
            t,
            &reseeded(ctx, seed),
        ),
    decreases limit + 1 - drop,
{
    if drop <= limit {
        lemma_landing_reseeded(step, drop + 1, limit, t, ctx, seed);
    }
}

proof fn lemma_falls_reseeded(from: BlockPos, t: Terrain, ctx: MoveContext, seed: u64)
    ensures
        fall::fall_offers(from, t, &ctx) == fall::fall_offers(from, t, &reseeded(ctx, seed)),
{
    let limit = moves::drop_limit(ctx.max_fall);
    lemma_landing_reseeded(world::shift(from, 1, 0, 0), 1, limit, t, ctx, seed);
    lemma_landing_reseeded(world::shift(from, -1, 0, 0), 1, limit, t, ctx, seed);
    lemma_landing_reseeded(world::shift(from, 0, 0, 1), 1, limit, t, ctx, seed);
    lemma_landing_reseeded(world::shift(from, 0, 0, -1), 1, limit, t, ctx, seed);
}

proof fn lemma_falling_jump_reseeded(
    from: BlockPos,
    ox: int,
    oz: int,
    drop: int,
    limit: int,
    t: Terrain,
    ctx: MoveContext,
    seed: u64,
)
    ensures
        parkour::falling_jump(from, ox, oz, drop, limit, t, &ctx) == parkour::falling_jump(
            from,
            ox,
            oz,
            drop,
            limit,
            t,
            &reseeded(ctx, seed),
        ),
    decreases limit + 1 - drop,
{
    if drop <= limit {
        lemma_falling_jump_reseeded(from, ox, oz, drop + 1, limit, t, ctx, seed);
    }
}

proof fn lemma_jumps_reseeded(from: BlockPos, n: nat, t: Terrain, ctx: MoveContext, seed: u64)
    ensures
        parkour::jumps_among(from, n, t, &ctx) == parkour::jumps_among(
            from,
            n,
            t,
            &reseeded(ctx, seed),
        ),
    decreases n,
{
    if n > 0 {
        let k = n - 1;
        lemma_jumps_reseeded(from, k as nat, t, ctx, seed);
        lemma_falling_jump_reseeded(
            from,
            parkour::landing(k).0,
            parkour::landing(k).1,
            1,
            moves::drop_limit(ctx.max_fall),
            t,
            ctx,
            seed,
        );
    }
}

proof fn lemma_offers_reseeded(
    movement: BuiltinMove,
    from: BlockPos,
    t: Terrain,
    ctx: MoveContext,
    seed: u64,
)
    ensures
        movement.offers(from, t, &ctx) == movement.offers(from, t, &reseeded(ctx, seed)),
{
    lemma_walks_reseeded(from, t, ctx, seed);
    lemma_falls_reseeded(from, t, ctx, seed);
    lemma_jumps_reseeded(from, parkour::LANDINGS as nat, t, ctx, seed);
}

/// The seed only breaks ties: the routes that exist, and what they cost, are the
/// same under every seed.
pub proof fn seeds_change_no_price(
    problem: Problem<BuiltinMove>,
    seed: u64,
    start: BlockPos,
    hops: Seq<Hop>,
)
    ensures
        problem.walkable(start, hops) == (Problem {
            ctx: reseeded(problem.ctx, seed),
            ..problem
        }).walkable(start, hops),
        problem.end(start, hops) == (Problem { ctx: reseeded(problem.ctx, seed), ..problem }).end(
            start,
            hops,
        ),
        problem.walkable(start, hops) ==> problem.length(start, hops) == (Problem {
            ctx: reseeded(problem.ctx, seed),
            ..problem
        }).length(start, hops),
    decreases hops.len(),
{
    if hops.len() > 0 {
        let other = Problem { ctx: reseeded(problem.ctx, seed), ..problem };
        seeds_change_no_price(problem, seed, start, hops.drop_last());
        let from = problem.end(start, hops.drop_last());
        let hop = hops.last();
        let movement = problem.moves[hop.rule];
        lemma_offers_reseeded(movement, from, problem.terrain, problem.ctx, seed);
        assert(other.menu(from, hop.rule) == problem.menu(from, hop.rule));
        let edge = problem.edge(from, hop);
        lemma_description_reseeded(movement, from, edge, problem.terrain, problem.ctx, seed);
        lemma_tolls_reseeded(problem.terrain, from, problem.ctx, seed);
        lemma_tolls_reseeded(problem.terrain, edge.to, problem.ctx, seed);
    }
}

/// A search in a snapshot can walk to no more positions than the snapshot holds
/// blocks, besides its start.
pub proof fn snapshots_confine_searches(
    snapshot: &WorldSnapshot,
    problem: Problem<BuiltinMove>,
    start: BlockPos,
)
    requires
        problem.terrain == snapshot.terrain(),
    ensures
        problem.confined(start, (world::volume(snapshot.low(), snapshot.high()) + 1) as nat),
{
    let lo = snapshot.low();
    let hi = snapshot.high();
    let sy = world::span(lo.y, hi.y);
    let sz = world::span(lo.z, hi.z);
    let total = world::volume(lo, hi);
    assert(0 <= total) by (nonlinear_arith)
        requires
            total == world::span(lo.x, hi.x) * world::span(lo.y, hi.y) * world::span(lo.z, hi.z),
            world::span(lo.x, hi.x) >= 0,
            world::span(lo.y, hi.y) >= 0,
            world::span(lo.z, hi.z) >= 0,
    ;
    let inside = Seq::new(total as nat, |i: int| world::position_at(lo, sy, sz, i));
    let places = inside.push(start).to_set();
    vstd::seq_lib::seq_to_set_is_finite(inside.push(start));
    inside.push(start).lemma_cardinality_of_set();
    assert forall|hops: Seq<Hop>| problem.walkable(start, hops) implies places.contains(
        #[trigger] problem.end(start, hops),
    ) by {
        let last = problem.end(start, hops);
        if hops.len() == 0 {
            assert(inside.push(start)[total] == last);
        } else {
            let from = problem.end(start, hops.drop_last());
            unknown_blocks_are_impassable(problem, from, hops.last());
            assert(problem.terrain.kind(last) == snapshot.kind_at(last));
            world::snapshot_positions_round_trip(lo, hi, last);
            let i = world::index_at(lo, sy, sz, last);
            assert(inside.push(start)[i] == last);
        }
    }
    assert(problem.encloses(start, places));
}

/// A search with the standard moves, a block goal and time left is decided when
/// its budget covers every position that can be walked to and costs fit their
/// range: it never asks for more than it may expand.
pub proof fn affordable_searches_are_decided(
    problem: Problem<BuiltinMove>,
    target: BlockGoal,
    start: BlockPos,
)
    requires
        problem.confined(start, problem.ctx.max_expansions as nat),
        !problem.overflows(&target, problem.guided(&target, start), start),
    ensures
        !astar::taxing(problem, &target, start),
{
    graph_model::unguided_searches_are_consistent(problem, &target);
    if problem.guided(&target, start) {
        graph_model::block_goals_are_consistent(problem, target);
    }
    assert forall|hops: Seq<Hop>, rule: int|
        problem.walkable(start, hops) && 0 <= rule < problem.moves.len() implies (
    #[trigger] problem.menu(problem.end(start, hops), rule)).len()
        <= astar::MAX_CANDIDATES_PER_MOVE by {
        menu::standard_menus_are_short(
            problem.moves[rule],
            problem.end(start, hops),
            problem.terrain,
            &problem.ctx,
        );
    }
}

proof fn lemma_description_reseeded(
    movement: BuiltinMove,
    from: BlockPos,
    edge: Edge,
    t: Terrain,
    ctx: MoveContext,
    seed: u64,
)
    ensures
        movement.describes(from, edge, t, &ctx) == movement.describes(
            from,
            edge,
            t,
            &reseeded(ctx, seed),
        ),
{
}

proof fn lemma_tolls_reseeded(t: Terrain, pos: BlockPos, ctx: MoveContext, seed: u64)
    ensures
        tolls::lava_danger(t, pos, &ctx) == tolls::lava_danger(t, pos, &reseeded(ctx, seed)),
        tolls::standing_toll(t, pos, &ctx) == tolls::standing_toll(t, pos, &reseeded(ctx, seed)),
{
}

} // verus!
