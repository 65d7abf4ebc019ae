//! What a planned path is worth: it is a route, it ends at the goal, and no
//! other route to the goal costs less.
use vstd::prelude::*;

use crate::arith;
use crate::local::astar;
use crate::local::goal::{BlockGoal, Goal};
use crate::local::graph_model;
use crate::local::graph_model::{Hop, Problem};
use crate::local::moves;
use crate::local::moves::Move;
use crate::local::rng;
use crate::local::route_laws;
use crate::local::rules::builtin::BuiltinMove;
use crate::local::terrain_laws;
use crate::local::tolls;
use crate::local::tree;
use crate::local::tree::NodeData;
use crate::planning::MotionStep;
use crate::pos::BlockPos;
use crate::types::{Cost, Path, PathError, PathNode};

verus! {

/// Whether a rule offers the step from `a` to `b`, and the lava policy allows
/// it.
pub open spec fn offered(problem: Problem<BuiltinMove>, a: BlockPos, hop: Hop, b: BlockPos) -> bool {
    &&& 0 <= hop.rule < problem.moves.len()
    &&& {
        let offers = problem.moves[hop.rule].offers(a, problem.terrain, &problem.ctx);
        0 <= hop.choice < offers.len() && offers[hop.choice].to == b
    }
    &&& moves::transition_allowed(
        tolls::lava_danger(problem.terrain, a, &problem.ctx),
        tolls::lava_danger(problem.terrain, b, &problem.ctx),
        problem.ctx.lava_policy,
    )
}

/// Whether each place of a route is one offered step from the one before.
pub open spec fn is_route(
    problem: Problem<BuiltinMove>,
    places: Seq<BlockPos>,
    hops: Seq<Hop>,
) -> bool {
    &&& places.len() == hops.len() + 1
    &&& forall|i: int|
        0 <= i < hops.len() ==> offered(problem, places[i], #[trigger] hops[i], places[i + 1])
}

/// What a step costs without a learned model: what the rule asks for it, and
/// the toll for standing where it ends.
pub open spec fn step_cost(problem: Problem<BuiltinMove>, a: BlockPos, hop: Hop) -> int {
    let edge = problem.moves[hop.rule].offers(a, problem.terrain, &problem.ctx)[hop.choice];
    edge.cost + tolls::standing_toll(problem.terrain, edge.to, &problem.ctx)
}

/// What a route costs: the sum of its steps.
pub open spec fn route_cost(
    problem: Problem<BuiltinMove>,
    places: Seq<BlockPos>,
    hops: Seq<Hop>,
) -> int
    decreases hops.len(),
{
    if hops.len() == 0 {
        0
    } else {
        route_cost(problem, places.drop_last(), hops.drop_last()) + step_cost(
            problem,
            places[hops.len() - 1],
            hops.last(),
        )
    }
}

/// Whether a search for a block may end at `pos`: near enough to it, clear of
/// lava, and out of water where water is forbidden.
pub open spec fn may_end(problem: Problem<BuiltinMove>, target: BlockGoal, pos: BlockPos) -> bool {
    let centre = target.center();
    &&& arith::abs_int(pos.x - centre.x) + arith::abs_int(pos.y - centre.y) + arith::abs_int(
        pos.z - centre.z,
    ) <= target.slack()
    &&& tolls::lava_danger(problem.terrain, pos, &problem.ctx) == 0
    &&& !(problem.ctx.water_policy is Forbidden && problem.terrain.kind(pos) is Water)
}

proof fn lemma_route(problem: Problem<BuiltinMove>, places: Seq<BlockPos>, hops: Seq<Hop>)
    requires
        is_route(problem, places, hops),
        problem.model is None,
    ensures
        problem.walkable(places[0], hops),
        problem.end(places[0], hops) == places.last(),
        problem.length(places[0], hops) == route_cost(problem, places, hops),
    decreases hops.len(),
{
    if hops.len() > 0 {
        let before = places.drop_last();
        let shorter = hops.drop_last();
        assert forall|i: int| 0 <= i < shorter.len() implies offered(
            problem,
            before[i],
            #[trigger] shorter[i],
            before[i + 1],
        ) by {
            assert(offered(problem, places[i], hops[i], places[i + 1]));
        }
        lemma_route(problem, before, shorter);
        let last = hops.len() - 1;
        assert(offered(problem, places[last], hops[last], places[last + 1]));
        assert(before.last() == places[last]);
        assert(before[0] == places[0]);
        assert(problem.legal(places[last], hops.last()));
        assert(problem.charge(
            places[last],
            hops.last().rule,
            problem.edge(places[last], hops.last()),
        ) == problem.edge(places[last], hops.last()).cost);
    }
}

/// The places along a path.
pub open spec fn places_of(path: Path) -> Seq<BlockPos> {
    path.nodes@.map_values(|node: crate::types::PathNode| node.pos)
}

/// A path that is found is a route from the start to where the search may end.
/// It lists how every place is reached, and its cost is the sum of its steps.
pub proof fn found_paths_are_routes(
    problem: Problem<BuiltinMove>,
    target: BlockGoal,
    start: BlockPos,
    path: Path,
) -> (hops: Seq<Hop>)
    requires
        astar::search_answer(problem, &target, start, Ok(path)),
        problem.model is None,
    ensures
        path.nodes@.len() > 0,
        path.nodes@[0].pos == start,
        path.nodes@[0].reached_by is Start,
        is_route(problem, places_of(path), hops),
        may_end(problem, target, path.nodes@.last().pos),
        path.total_cost == arith::min_int(
            route_cost(problem, places_of(path), hops),
            u32::MAX as int,
        ),
        forall|i: int|
            0 <= i < hops.len() ==> (#[trigger] path.nodes@[i + 1]).reached_by
                == problem.moves[hops[i].rule].offers(
                path.nodes@[i].pos,
                problem.terrain,
                &problem.ctx,
            )[hops[i].choice].kind,
{
    graph_model::block_goals_are_admissible(problem, target);
    let guided = problem.guided(&target, start);
    let hops = choose|hops: Seq<Hop>| #[trigger]
        tree::realizes(problem, start, path.nodes@, hops) && problem.finishes(
            &target,
            problem.end(start, hops),
        ) && arith::clamp_u32(problem.length(start, hops)) <= path.total_cost && (
        problem.admissible(&target, guided) ==> path.total_cost == arith::clamp_u32(
            problem.length(start, hops),
        ));
    let places = places_of(path);
    let nodes = path.nodes@;
    assert(problem.admissible(&target, guided));
    assert forall|i: int| 0 <= i < hops.len() implies offered(
        problem,
        places[i],
        #[trigger] hops[i],
        places[i + 1],
    ) && nodes[i + 1].reached_by == problem.moves[hops[i].rule].offers(
        nodes[i].pos,
        problem.terrain,
        &problem.ctx,
    )[hops[i].choice].kind by {
        lemma_step(problem, start, path, hops, i);
    }
    assert forall|i: int| 0 <= i < hops.len() implies (#[trigger] nodes[i + 1]).reached_by
        == problem.moves[hops[i].rule].offers(
        nodes[i].pos,
        problem.terrain,
        &problem.ctx,
    )[hops[i].choice].kind by {
        let hop = hops[i];
    }
    lemma_route(problem, places, hops);
    problem.lemma_length_nonneg(start, hops);
    hops
}

proof fn lemma_step(
    problem: Problem<BuiltinMove>,
    start: BlockPos,
    path: Path,
    hops: Seq<Hop>,
    i: int,
)
    requires
        tree::realizes(problem, start, path.nodes@, hops),
        0 <= i < hops.len(),
    ensures
        offered(problem, path.nodes@[i].pos, hops[i], path.nodes@[i + 1].pos),
        path.nodes@[i + 1].reached_by == problem.moves[hops[i].rule].offers(
            path.nodes@[i].pos,
            problem.terrain,
            &problem.ctx,
        )[hops[i].choice].kind,
{
    let nodes = path.nodes@;
    assert(tree::realizes_step(problem, start, nodes, hops, i + 1));
    problem.lemma_cut(start, hops, i + 1);
    assert(hops.take(i + 1).drop_last() =~= hops.take(i));
    assert(hops.take(i + 1).last() == hops[i]);
    assert(problem.end(start, hops.take(i)) == nodes[i].pos) by {
        if i > 0 {
            assert(tree::realizes_step(problem, start, nodes, hops, i));
        } else {
            assert(hops.take(0) =~= Seq::<Hop>::empty());
        }
    }
    assert(problem.legal(nodes[i].pos, hops[i]));
}

/// No route from the start to anywhere the search may end costs less than the
/// path that is found.
pub proof fn found_paths_are_cheapest(
    problem: Problem<BuiltinMove>,
    target: BlockGoal,
    start: BlockPos,
    path: Path,
    places: Seq<BlockPos>,
    hops: Seq<Hop>,
)
    requires
        astar::search_answer(problem, &target, start, Ok(path)),
        problem.model is None,
        is_route(problem, places, hops),
        places[0] == start,
        may_end(problem, target, places.last()),
    ensures
        path.total_cost <= route_cost(problem, places, hops),
{
    graph_model::block_goals_are_admissible(problem, target);
    lemma_route(problem, places, hops);
    assert(problem.finishes(&target, problem.end(start, hops)));
}

/// A search that finds no path is right: no route from the start leads to
/// anywhere it may end.
pub proof fn missing_paths_do_not_exist(
    problem: Problem<BuiltinMove>,
    target: BlockGoal,
    start: BlockPos,
    places: Seq<BlockPos>,
    hops: Seq<Hop>,
)
    requires
        astar::search_answer(problem, &target, start, Err(PathError::NoPath)),
        problem.model is None,
        is_route(problem, places, hops),
        places[0] == start,
    ensures
        !may_end(problem, target, places.last()),
{
    lemma_route(problem, places, hops);
    assert(!problem.finishes(&target, problem.end(start, hops)));
}

/// A search for a block never ends in a way that nothing explains: it is
/// neither stuck nor cancelled, and without time it finds nothing.
pub proof fn searches_end_in_an_answer(
    problem: Problem<BuiltinMove>,
    target: BlockGoal,
    start: BlockPos,
    found: Result<Path, PathError>,
)
    requires
        astar::search_answer(problem, &target, start, found),
    ensures
        match found {
            Ok(_) => problem.ctx.time_budget_ms > 0,
            Err(error) => error is SearchBudgetExhausted || (error is NoPath
                && problem.ctx.time_budget_ms > 0),
        },
{
}

/// A best effort that falls short of the goal still gets somewhere: it stays at
/// its start for nothing, or it ends where the body is safer from lava, else out
/// of forbidden water, else nearer to the target.
pub proof fn partial_paths_make_progress(
    problem: Problem<BuiltinMove>,
    target: BlockGoal,
    start: BlockPos,
    path: Path,
)
    requires
        astar::best_effort_answer(problem, &target, start, path, false),
    ensures
        path.nodes@.len() > 0,
        path.nodes@[0].pos == start,
        ({
            let end = path.nodes@.last().pos;
            let centre = target.center();
            let danger = |pos: BlockPos| tolls::lava_danger(problem.terrain, pos, &problem.ctx);
            let wet = |pos: BlockPos|
                problem.ctx.water_policy is Forbidden && problem.terrain.kind(pos) is Water;
            let apart = |pos: BlockPos|
                arith::abs_int(pos.x - centre.x) + arith::abs_int(pos.y - centre.y)
                    + arith::abs_int(pos.z - centre.z);
            ||| path.nodes@.len() == 1 && path.total_cost == 0
            ||| danger(end) < danger(start)
            ||| danger(end) == danger(start) && !wet(end) && wet(start)
            ||| danger(end) == danger(start) && wet(end) == wet(start) && apart(end) < apart(start)
        }),
{
}

/// A best effort that reaches the goal is as good as a search that finds it: no
/// route to anywhere it may end costs less.
#[verifier::spinoff_prover]
#[verifier::rlimit(40)]
pub proof fn complete_efforts_are_cheapest(
    problem: Problem<BuiltinMove>,
    target: BlockGoal,
    start: BlockPos,
    path: Path,
    places: Seq<BlockPos>,
    hops: Seq<Hop>,
)
    requires
        astar::best_effort_answer(problem, &target, start, path, true),
        problem.model is None,
        is_route(problem, places, hops),
        places[0] == start,
        may_end(problem, target, places.last()),
    ensures
        path.total_cost <= route_cost(problem, places, hops),
        may_end(problem, target, path.nodes@.last().pos),
{
    graph_model::block_goals_are_admissible(problem, target);
    lemma_route(problem, places, hops);
    assert(problem.finishes(&target, problem.end(start, hops)));
    let nodes = path.nodes@;
    let guided = problem.guided(&target, start);
    let walked = choose|walked: Seq<Hop>| #[trigger]
        tree::realizes(problem, start, nodes, walked) && problem.finishes(
            &target,
            problem.end(start, walked),
        ) && arith::clamp_u32(problem.length(start, walked)) <= path.total_cost && (
        problem.admissible(&target, guided) ==> path.total_cost == arith::clamp_u32(
            problem.length(start, walked),
        ));
    if nodes.len() > 1 {
        assert(tree::realizes_step(problem, start, nodes, walked, nodes.len() - 1));
        assert(walked.take(walked.len() as int) =~= walked);
    }
}

/// Whatever rule offers it, a step of a search ends where the whole body fits:
/// its feet are in no wall and in nothing unknown, and its head has room. The
/// item teleports offer no step of their own.
pub proof fn steps_end_where_the_body_fits(
    problem: Problem<BuiltinMove>,
    a: BlockPos,
    hop: Hop,
    b: BlockPos,
)
    requires
        offered(problem, a, hop, b),
        problem.terrain.by_blocks(),
        i32::MIN < b.y < i32::MAX - 1,
    ensures
        !(problem.terrain.kind(b) is Solid) && !(problem.terrain.kind(b) is Fence)
            && !(problem.terrain.kind(b) is Unloaded),
        terrain_laws::has_room(
            problem.terrain.kind(BlockPos { y: (b.y + 1) as i32, ..b }),
        ),
        !(problem.moves[hop.rule] is Aotv) && !(problem.moves[hop.rule] is Etherwarp),
{
    assert(problem.legal(a, hop));
    route_laws::hops_land_well(problem, a, hop);
    assert(problem.terrain.stands(b));
    terrain_laws::standing_is_decided_by_four_blocks(problem.terrain.kinds, b);
    terrain_laws::bodies_hold_only_where_they_fit(
        problem.terrain.kind(b),
        problem.terrain.kind(BlockPos { y: (b.y - 1) as i32, ..b }),
        problem.terrain.kind(BlockPos { y: (b.y + 1) as i32, ..b }),
        problem.terrain.kind(BlockPos { y: (b.y + 2) as i32, ..b }),
    );
}

/// The steps of a plan are those of its path, in order and numbered from zero,
/// and each is described as the rule that offered it described it: what it
/// predicts adds up to the price that was asked for the step.
pub proof fn plans_describe_every_step(
    problem: Problem<BuiltinMove>,
    start: BlockPos,
    path: Path,
    steps: Seq<MotionStep>,
) -> (hops: Seq<Hop>)
    requires
        astar::authored(problem, start, path, steps),
    ensures
        path.nodes@.len() == steps.len() + 1,
        is_route(problem, places_of(path), hops),
        forall|i: int|
            0 <= i < steps.len() && i <= u32::MAX ==> {
                let step = #[trigger] steps[i];
                &&& step.edge_index == i
                &&& step.from == path.nodes@[i].pos
                &&& step.to == path.nodes@[i + 1].pos
                &&& step.kind == path.nodes@[i + 1].reached_by
                &&& step.predicted.sum() == problem.moves[hops[i].rule].offers(
                    step.from,
                    problem.terrain,
                    &problem.ctx,
                )[hops[i].choice].cost
            },
{
    let hops = choose|hops: Seq<Hop>|
        {
            &&& #[trigger] tree::realizes(problem, start, path.nodes@, hops)
            &&& arith::clamp_u32(problem.length(start, hops)) <= path.total_cost
            &&& steps.len() == hops.len()
            &&& forall|i: int|
                0 <= i < steps.len() ==> #[trigger] steps[i] == astar::authored_step(
                    problem,
                    path.nodes@,
                    hops,
                    i,
                ) && problem.account(
                    path.nodes@[i].pos,
                    hops[i].rule,
                    problem.edge(path.nodes@[i].pos, hops[i]),
                ) is Some
        };
    let places = places_of(path);
    assert forall|i: int| 0 <= i < hops.len() implies offered(
        problem,
        places[i],
        #[trigger] hops[i],
        places[i + 1],
    ) by {
        lemma_step(problem, start, path, hops, i);
    }
    assert forall|i: int| 0 <= i < steps.len() && i <= u32::MAX implies {
        let step = #[trigger] steps[i];
        &&& step.edge_index == i
        &&& step.from == path.nodes@[i].pos
        &&& step.to == path.nodes@[i + 1].pos
        &&& step.kind == path.nodes@[i + 1].reached_by
        &&& step.predicted.sum() == problem.moves[hops[i].rule].offers(
            step.from,
            problem.terrain,
            &problem.ctx,
        )[hops[i].choice].cost
    } by {
        lemma_step(problem, start, path, hops, i);
        assert(steps[i] == astar::authored_step(problem, path.nodes@, hops, i));
    }
    hops
}

/// A path gets a plan only from the search that found it: it begins where the
/// search did, each of its nodes was reached from the one before in the way the
/// path says and with a description, and its cost is that of its last node.
pub proof fn plans_belong_to_their_search(
    nodes: Map<BlockPos, NodeData>,
    path: Seq<PathNode>,
    cost: Cost,
)
    ensures
        astar::plan_fault(nodes, path, cost) is None <==> {
            &&& path.len() > 0
            &&& nodes.contains_key(path[0].pos)
            &&& path[0].reached_by is Start
            &&& nodes[path[0].pos].parent is None
            &&& nodes[path[0].pos].reached_by is Start
            &&& nodes.contains_key(path.last().pos)
            &&& nodes[path.last().pos].g == cost
            &&& forall|i: int|
                1 <= i < path.len() ==> {
                    let data = nodes[(#[trigger] path[i]).pos];
                    &&& nodes.contains_key(path[i].pos)
                    &&& data.parent == Some(path[i - 1].pos)
                    &&& data.reached_by == path[i].reached_by
                    &&& data.metadata is Some
                }
        },
{
    if path.len() > 0 {
        lemma_edge_faults(nodes, path, 1);
    }
}

proof fn lemma_edge_faults(nodes: Map<BlockPos, NodeData>, path: Seq<PathNode>, from: int)
    requires
        1 <= from,
    ensures
        astar::first_edge_fault(nodes, path, from) is None <==> forall|i: int|
            from <= i < path.len() ==> {
                let data = nodes[(#[trigger] path[i]).pos];
                &&& nodes.contains_key(path[i].pos)
                &&& data.parent == Some(path[i - 1].pos)
                &&& data.reached_by == path[i].reached_by
                &&& data.metadata is Some
            },
    decreases path.len() - from,
{
    if from < path.len() {
        lemma_edge_faults(nodes, path, from + 1);
        let here = path[from];
    }
}

/// Equal routes are told apart by their seed: a place is shuffled differently
/// under every seed, and some seed puts it into each of the three classes.
pub proof fn seeds_shuffle_every_place(pos: BlockPos, a: u64, b: u64)
    ensures
        tree::shuffled(pos, a) == tree::shuffled(pos, b) ==> a == b,
        tree::tie_class(pos, a) < 3,
        exists|seed: u64| #[trigger] tree::tie_class(pos, seed) == 0,
        exists|seed: u64| #[trigger] tree::tie_class(pos, seed) == 1,
        exists|seed: u64| #[trigger] tree::tie_class(pos, seed) == 2,
{
    let x = (pos.x as u64).wrapping_mul(0x9E37_79B9_7F4A_7C15);
    let z = (pos.z as u64).wrapping_mul(0xC2B2_AE3D_27D4_EB4F);
    let y = pos.y as u64;
    if tree::shuffled(pos, a) == tree::shuffled(pos, b) {
        rng::generators_never_merge(a ^ x ^ z ^ y, b ^ x ^ z ^ y);
        assert(a ^ x ^ z ^ y == b ^ x ^ z ^ y ==> a == b) by (bit_vector);
    }
    lemma_class(pos, 0, 0);
    lemma_class(pos, 0xbe6d_f32f_185a_864d, 1);
    lemma_class(pos, 0x7ccb_e6de_34b5_2c9b, 2);
}

proof fn lemma_class(pos: BlockPos, mixed: u64, class: u64)
    requires
        (mixed == 0 && class == 0) || (mixed == 0xbe6d_f32f_185a_864d && class == 1) || (mixed
            == 0x7ccb_e6de_34b5_2c9b && class == 2),
    ensures
        exists|seed: u64| #[trigger] tree::tie_class(pos, seed) == class,
{
    let x = (pos.x as u64).wrapping_mul(0x9E37_79B9_7F4A_7C15);
    let z = (pos.z as u64).wrapping_mul(0xC2B2_AE3D_27D4_EB4F);
    let y = pos.y as u64;
    let seed = mixed ^ y ^ z ^ x;
    assert(seed == mixed ^ y ^ z ^ x);
    assert(seed ^ x ^ z ^ y == mixed) by (bit_vector)
        requires
            seed == mixed ^ y ^ z ^ x,
    ;
    assert({
        let a = mixed ^ (mixed << 13);
        let b = a ^ (a >> 7);
        b ^ (b << 17) == class
    }) by (bit_vector)
        requires
            (mixed == 0 && class == 0) || (mixed == 0xbe6d_f32f_185a_864d && class == 1) || (mixed
                == 0x7ccb_e6de_34b5_2c9b && class == 2),
    ;
    assert(tree::tie_class(pos, seed) == class);
}

} // verus!
