//! Every built-in rule respects the built-in lower bound.
use vstd::prelude::*;

use crate::arith;
use crate::local::goal;
use crate::local::moves;
use crate::local::moves::{Edge, Move, MoveContext, MovementCosts};
use crate::local::rules::builtin::BuiltinMove;
use crate::local::rules::climb;
use crate::local::rules::fall;
use crate::local::rules::offer;
use crate::local::rules::parkour;
use crate::local::rules::swim;
use crate::local::rules::walk;
use crate::local::world;
use crate::local::world::Terrain;
use crate::pos::BlockPos;

verus! {

/// The transitions of `edges` that start at `from` all pay their way.
pub open spec fn all_pay(from: BlockPos, edges: Seq<Edge>, costs: MovementCosts) -> bool {
    offer::all_edges(edges, |edge: Edge| goal::pays_its_way(from, edge, costs))
}

proof fn lemma_clamped_monotone(unit: int, small: int, large: int)
    requires
        0 <= unit,
        small <= large,
    ensures
        arith::clamp_u32(unit * small) <= arith::clamp_u32(unit * large),
{
    assert(unit * small <= unit * large) by (nonlinear_arith)
        requires
            0 <= unit,
            small <= large,
    ;
}

/// A transition by an offset pays its way when its cost covers the offset.
proof fn lemma_pays(from: BlockPos, dx: int, dy: int, dz: int, edge: Edge, costs: MovementCosts)
    requires
        edge.to == world::shift(from, dx, dy, dz),
        edge.cost >= arith::clamp_u32(
            goal::sideways_unit(costs) * arith::max_int(arith::abs_int(dx), arith::abs_int(dz)),
        ),
        dy > 0 ==> edge.cost >= arith::clamp_u32(goal::rising_unit(costs) * dy),
        dy < 0 ==> edge.cost >= arith::clamp_u32(goal::sinking_unit(costs) * -dy),
    ensures
        goal::pays_its_way(from, edge, costs),
{
    let to = edge.to;
    lemma_clamped_monotone(
        goal::sideways_unit(costs),
        arith::max_int(arith::abs_int(to.x - from.x), arith::abs_int(to.z - from.z)),
        arith::max_int(arith::abs_int(dx), arith::abs_int(dz)),
    );
    if to.y > from.y {
        lemma_clamped_monotone(goal::rising_unit(costs), to.y - from.y, dy);
    }
    if to.y < from.y {
        lemma_clamped_monotone(goal::sinking_unit(costs), from.y - to.y, -dy);
    }
}

/// A transition within one block on each axis pays its way when its cost covers
/// the units it uses.
proof fn lemma_pays_one(
    from: BlockPos,
    dx: int,
    dy: int,
    dz: int,
    edge: Edge,
    costs: MovementCosts,
)
    requires
        edge.to == world::shift(from, dx, dy, dz),
        -1 <= dx <= 1,
        -1 <= dy <= 1,
        -1 <= dz <= 1,
        dx != 0 || dz != 0 ==> edge.cost >= goal::sideways_unit(costs),
        dy > 0 ==> edge.cost >= goal::rising_unit(costs),
        dy < 0 ==> edge.cost >= goal::sinking_unit(costs),
    ensures
        goal::pays_its_way(from, edge, costs),
{
    let reach = arith::max_int(arith::abs_int(dx), arith::abs_int(dz));
    let unit = goal::sideways_unit(costs);
    let up = goal::rising_unit(costs);
    let down = goal::sinking_unit(costs);
    assert(unit * reach == (if reach == 0 {
        0
    } else {
        unit
    })) by (nonlinear_arith)
        requires
            0 <= reach <= 1,
    ;
    assert(up * 1 == up && down * 1 == down) by (nonlinear_arith);
    lemma_pays(from, dx, dy, dz, edge, costs);
}

proof fn lemma_in_turn_pays(
    from: BlockPos,
    a: Seq<Edge>,
    b: Seq<Edge>,
    c: Seq<Edge>,
    d: Seq<Edge>,
    costs: MovementCosts,
)
    requires
        all_pay(from, a, costs),
        all_pay(from, b, costs),
        all_pay(from, c, costs),
        all_pay(from, d, costs),
    ensures
        all_pay(from, offer::in_turn(a, b, c, d), costs),
{
    lemma_sum_pays(from, a, b, costs);
    lemma_sum_pays(from, a + b, c, costs);
    lemma_sum_pays(from, a + b + c, d, costs);
}

proof fn lemma_sum_pays(from: BlockPos, a: Seq<Edge>, b: Seq<Edge>, costs: MovementCosts)
    requires
        all_pay(from, a, costs),
        all_pay(from, b, costs),
    ensures
        all_pay(from, a + b, costs),
{
    offer::lemma_all_edges_add(a, b, |edge: Edge| goal::pays_its_way(from, edge, costs));
}

proof fn lemma_level_walk_pays(from: BlockPos, dx: int, dz: int, t: Terrain, ctx: &MoveContext)
    requires
        -1 <= dx <= 1,
        -1 <= dz <= 1,
    ensures
        all_pay(from, walk::level_walk(from, dx, dz, t, ctx), ctx.costs),
        all_pay(from, walk::corner_walk(from, dx, dz, t, ctx), ctx.costs),
        all_pay(from, walk::step_pair(from, dx, dz, t, ctx), ctx.costs),
        all_pay(from, walk::hop(from, dx, dz, t, ctx), ctx.costs),
{
    let costs = ctx.costs;
    let level = walk::level_walk(from, dx, dz, t, ctx);
    if level.len() > 0 {
        lemma_pays_one(from, dx, 0, dz, level[0], costs);
    }
    let corner = walk::corner_walk(from, dx, dz, t, ctx);
    if corner.len() > 0 {
        lemma_pays_one(from, dx, 0, dz, corner[0], costs);
    }
    let up = walk::step_walk(from, dx, 1, dz, t, ctx);
    if up.len() > 0 {
        lemma_pays_one(from, dx, 1, dz, up[0], costs);
    }
    let down = walk::step_walk(from, dx, -1, dz, t, ctx);
    if down.len() > 0 {
        lemma_pays_one(from, dx, -1, dz, down[0], costs);
    }
    lemma_sum_pays(from, up, down, costs);
    let hop = walk::hop(from, dx, dz, t, ctx);
    if hop.len() > 0 {
        lemma_pays_one(from, dx, 1, dz, hop[0], costs);
    }
}

proof fn lemma_walk_pays(from: BlockPos, t: Terrain, ctx: &MoveContext)
    ensures
        all_pay(from, walk::walk_offers(from, t, ctx), ctx.costs),
        all_pay(from, walk::jump_offers(from, t, ctx), ctx.costs),
{
    let costs = ctx.costs;
    lemma_level_walk_pays(from, 1, 0, t, ctx);
    lemma_level_walk_pays(from, -1, 0, t, ctx);
    lemma_level_walk_pays(from, 0, 1, t, ctx);
    lemma_level_walk_pays(from, 0, -1, t, ctx);
    lemma_level_walk_pays(from, 1, 1, t, ctx);
    lemma_level_walk_pays(from, 1, -1, t, ctx);
    lemma_level_walk_pays(from, -1, 1, t, ctx);
    lemma_level_walk_pays(from, -1, -1, t, ctx);
    lemma_in_turn_pays(
        from,
        walk::level_walk(from, 1, 0, t, ctx),
        walk::level_walk(from, -1, 0, t, ctx),
        walk::level_walk(from, 0, 1, t, ctx),
        walk::level_walk(from, 0, -1, t, ctx),
        costs,
    );
    lemma_in_turn_pays(
        from,
        walk::corner_walk(from, 1, 1, t, ctx),
        walk::corner_walk(from, 1, -1, t, ctx),
        walk::corner_walk(from, -1, 1, t, ctx),
        walk::corner_walk(from, -1, -1, t, ctx),
        costs,
    );
    lemma_in_turn_pays(
        from,
        walk::step_pair(from, 1, 0, t, ctx),
        walk::step_pair(from, -1, 0, t, ctx),
        walk::step_pair(from, 0, 1, t, ctx),
        walk::step_pair(from, 0, -1, t, ctx),
        costs,
    );
    lemma_in_turn_pays(
        from,
        walk::hop(from, 1, 0, t, ctx),
        walk::hop(from, -1, 0, t, ctx),
        walk::hop(from, 0, 1, t, ctx),
        walk::hop(from, 0, -1, t, ctx),
        costs,
    );
    let levels = walk::level_walks(from, t, ctx);
    let corners = walk::corner_walks(from, t, ctx);
    let steps = walk::step_walks(from, t, ctx);
    lemma_sum_pays(from, levels, corners, costs);
    lemma_sum_pays(from, levels + corners, steps, costs);
}

proof fn lemma_climb_side_pays(from: BlockPos, dx: int, dz: int, t: Terrain, ctx: &MoveContext)
    requires
        -1 <= dx <= 1,
        -1 <= dz <= 1,
    ensures
        all_pay(from, climb::grab_pair(from, dx, dz, t, ctx), ctx.costs),
        all_pay(from, climb::dismount_pair(from, dx, dz, t, ctx), ctx.costs),
{
    let costs = ctx.costs;
    let low = climb::grab(from, dx, 0, dz, t, ctx);
    if low.len() > 0 {
        lemma_pays_one(from, dx, 0, dz, low[0], costs);
    }
    let high = climb::grab(from, dx, 1, dz, t, ctx);
    if high.len() > 0 {
        lemma_pays_one(from, dx, 1, dz, high[0], costs);
    }
    lemma_sum_pays(from, low, high, costs);
    let off = climb::dismount(from, dx, 0, dz, t, ctx);
    if off.len() > 0 {
        lemma_pays_one(from, dx, 0, dz, off[0], costs);
    }
    let over = climb::dismount(from, dx, 1, dz, t, ctx);
    if over.len() > 0 {
        lemma_pays_one(from, dx, 1, dz, over[0], costs);
    }
    lemma_sum_pays(from, off, over, costs);
}

proof fn lemma_climb_pays(from: BlockPos, t: Terrain, ctx: &MoveContext)
    ensures
        all_pay(from, climb::climb_offers(from, t, ctx), ctx.costs),
{
    let costs = ctx.costs;
    lemma_climb_side_pays(from, 1, 0, t, ctx);
    lemma_climb_side_pays(from, -1, 0, t, ctx);
    lemma_climb_side_pays(from, 0, 1, t, ctx);
    lemma_climb_side_pays(from, 0, -1, t, ctx);
    lemma_in_turn_pays(
        from,
        climb::grab_pair(from, 1, 0, t, ctx),
        climb::grab_pair(from, -1, 0, t, ctx),
        climb::grab_pair(from, 0, 1, t, ctx),
        climb::grab_pair(from, 0, -1, t, ctx),
        costs,
    );
    lemma_in_turn_pays(
        from,
        climb::dismount_pair(from, 1, 0, t, ctx),
        climb::dismount_pair(from, -1, 0, t, ctx),
        climb::dismount_pair(from, 0, 1, t, ctx),
        climb::dismount_pair(from, 0, -1, t, ctx),
        costs,
    );
    let up = climb::rung(from, 1, t, ctx);
    if up.len() > 0 {
        lemma_pays_one(from, 0, 1, 0, up[0], costs);
    }
    let down = climb::rung(from, -1, t, ctx);
    if down.len() > 0 {
        lemma_pays_one(from, 0, -1, 0, down[0], costs);
    }
    lemma_sum_pays(from, up, down, costs);
    lemma_sum_pays(
        from,
        up + down,
        offer::in_turn(
            climb::dismount_pair(from, 1, 0, t, ctx),
            climb::dismount_pair(from, -1, 0, t, ctx),
            climb::dismount_pair(from, 0, 1, t, ctx),
            climb::dismount_pair(from, 0, -1, t, ctx),
        ),
        costs,
    );
}

proof fn lemma_swim_side_pays(from: BlockPos, dx: int, dz: int, t: Terrain, ctx: &MoveContext)
    requires
        -1 <= dx <= 1,
        -1 <= dz <= 1,
    ensures
        all_pay(from, swim::wade_pair(from, dx, dz, t, ctx), ctx.costs),
        all_pay(from, swim::stroke(from, dx, dz, t, ctx), ctx.costs),
        all_pay(from, swim::bank_exit(from, dx, dz, t, ctx), ctx.costs),
{
    let costs = ctx.costs;
    let level = swim::wade(from, dx, 0, dz, t, ctx);
    if level.len() > 0 {
        lemma_pays_one(from, dx, 0, dz, level[0], costs);
    }
    let lower = swim::wade(from, dx, -1, dz, t, ctx);
    if lower.len() > 0 {
        lemma_pays_one(from, dx, -1, dz, lower[0], costs);
    }
    lemma_sum_pays(from, level, lower, costs);
    let stroke = swim::stroke(from, dx, dz, t, ctx);
    if stroke.len() > 0 {
        lemma_pays_one(from, dx, 0, dz, stroke[0], costs);
    }
    let exit = swim::bank_exit(from, dx, dz, t, ctx);
    if exit.len() > 0 {
        lemma_pays_one(from, dx, 1, dz, exit[0], costs);
    }
}

proof fn lemma_swim_pays(from: BlockPos, t: Terrain, ctx: &MoveContext)
    ensures
        all_pay(from, swim::swim_offers(from, t, ctx), ctx.costs),
{
    let costs = ctx.costs;
    lemma_swim_side_pays(from, 1, 0, t, ctx);
    lemma_swim_side_pays(from, -1, 0, t, ctx);
    lemma_swim_side_pays(from, 0, 1, t, ctx);
    lemma_swim_side_pays(from, 0, -1, t, ctx);
    lemma_in_turn_pays(
        from,
        swim::wade_pair(from, 1, 0, t, ctx),
        swim::wade_pair(from, -1, 0, t, ctx),
        swim::wade_pair(from, 0, 1, t, ctx),
        swim::wade_pair(from, 0, -1, t, ctx),
        costs,
    );
    lemma_in_turn_pays(
        from,
        swim::stroke(from, 1, 0, t, ctx),
        swim::stroke(from, -1, 0, t, ctx),
        swim::stroke(from, 0, 1, t, ctx),
        swim::stroke(from, 0, -1, t, ctx),
        costs,
    );
    lemma_in_turn_pays(
        from,
        swim::bank_exit(from, 1, 0, t, ctx),
        swim::bank_exit(from, -1, 0, t, ctx),
        swim::bank_exit(from, 0, 1, t, ctx),
        swim::bank_exit(from, 0, -1, t, ctx),
        costs,
    );
    let up = swim::dive(from, 1, t, ctx);
    if up.len() > 0 {
        lemma_pays_one(from, 0, 1, 0, up[0], costs);
    }
    let down = swim::dive(from, -1, t, ctx);
    if down.len() > 0 {
        lemma_pays_one(from, 0, -1, 0, down[0], costs);
    }
    lemma_sum_pays(from, up, down, costs);
    let strokes = offer::in_turn(
        swim::stroke(from, 1, 0, t, ctx),
        swim::stroke(from, -1, 0, t, ctx),
        swim::stroke(from, 0, 1, t, ctx),
        swim::stroke(from, 0, -1, t, ctx),
    );
    lemma_sum_pays(from, strokes, up + down, costs);
    lemma_sum_pays(from, strokes + (up + down), swim::bank_exits(from, t, ctx), costs);
}

proof fn lemma_landing_pays(
    from: BlockPos,
    dx: int,
    dz: int,
    drop: int,
    limit: int,
    t: Terrain,
    ctx: &MoveContext,
)
    requires
        -1 <= dx <= 1,
        -1 <= dz <= 1,
        1 <= drop,
    ensures
        all_pay(
            from,
            fall::landing_below(world::shift(from, dx, 0, dz), drop, limit, t, ctx),
            ctx.costs,
        ),
    decreases limit + 1 - drop,
{
    let step = world::shift(from, dx, 0, dz);
    let feet = world::shift(step, 0, -drop, 0);
    if drop <= limit {
        lemma_landing_pays(from, dx, dz, drop + 1, limit, t, ctx);
        let costs = ctx.costs;
        let edge = Edge {
            to: feet,
            kind: crate::types::MoveKind::Fall,
            cost: fall::fall_cost(drop, t.wet(feet), ctx),
        };
        let per = costs.fall_per_block as int;
        let hurt = if t.wet(feet) {
            0
        } else {
            moves::fall_damage(drop)
        };
        let toll = ctx.fall_damage_penalty as int;
        assert(per * drop >= per && toll * hurt >= 0) by (nonlinear_arith)
            requires
                per >= 0,
                drop >= 1,
                toll >= 0,
                hurt >= 0,
        ;
        let unit = goal::sideways_unit(costs);
        let reach = arith::max_int(arith::abs_int(dx), arith::abs_int(dz));
        assert(unit * reach <= unit) by (nonlinear_arith)
            requires
                unit >= 0,
                reach <= 1,
        ;
        let down = goal::sinking_unit(costs);
        assert(down * drop <= per * drop) by (nonlinear_arith)
            requires
                down <= per,
                drop >= 1,
        ;
        assert(feet == world::shift(from, dx, -drop, dz));
        lemma_pays(from, dx, -drop, dz, edge, costs);
    }
}

proof fn lemma_fall_pays(from: BlockPos, t: Terrain, ctx: &MoveContext)
    ensures
        all_pay(from, fall::fall_offers(from, t, ctx), ctx.costs),
{
    let limit = moves::drop_limit(ctx.max_fall);
    lemma_landing_pays(from, 1, 0, 1, limit, t, ctx);
    lemma_landing_pays(from, -1, 0, 1, limit, t, ctx);
    lemma_landing_pays(from, 0, 1, 1, limit, t, ctx);
    lemma_landing_pays(from, 0, -1, 1, limit, t, ctx);
    lemma_in_turn_pays(
        from,
        fall::side_fall(from, 1, 0, t, ctx),
        fall::side_fall(from, -1, 0, t, ctx),
        fall::side_fall(from, 0, 1, t, ctx),
        fall::side_fall(from, 0, -1, t, ctx),
        ctx.costs,
    );
}

/// A jump's rounded distance is at least its longer axis.
proof fn lemma_blocks_cover_reach(ox: int, oz: int)
    requires
        parkour::jumpable(ox, oz),
    ensures
        arith::max_int(arith::abs_int(ox), arith::abs_int(oz)) <= parkour::travel_blocks(
            parkour::reach_squared(ox, oz),
        ),
{
    let longest = arith::max_int(arith::abs_int(ox), arith::abs_int(oz));
    let squared = parkour::reach_squared(ox, oz);
    assert(longest * longest <= squared) by (nonlinear_arith)
        requires
            squared == ox * ox + oz * oz,
            longest == ox || longest == -ox || longest == oz || longest == -oz,
    ;
    assert(longest <= 4) by (nonlinear_arith)
        requires
            longest * longest <= squared,
            squared <= 16,
            longest >= 0,
    ;
    assert(squared <= 6 ==> longest <= 2) by (nonlinear_arith)
        requires
            longest * longest <= squared,
            longest >= 0,
    ;
    assert(squared <= 12 ==> longest <= 3) by (nonlinear_arith)
        requires
            longest * longest <= squared,
            longest >= 0,
    ;
}

proof fn lemma_rising_pays(
    from: BlockPos,
    ox: int,
    oz: int,
    rise: int,
    t: Terrain,
    ctx: &MoveContext,
)
    requires
        parkour::jumpable(ox, oz),
        0 <= rise <= 1,
    ensures
        all_pay(from, parkour::rising_jump(from, ox, oz, rise, t, ctx), ctx.costs),
{
    let edges = parkour::rising_jump(from, ox, oz, rise, t, ctx);
    if edges.len() > 0 {
        let costs = ctx.costs;
        let blocks = parkour::travel_blocks(parkour::reach_squared(ox, oz));
        let reach = arith::max_int(arith::abs_int(ox), arith::abs_int(oz));
        lemma_blocks_cover_reach(ox, oz);
        let unit = goal::sideways_unit(costs);
        let per = costs.parkour_per_block as int;
        let jump = costs.jump as int;
        let up = goal::rising_unit(costs);
        assert(unit * reach <= per * blocks && 0 <= per * blocks) by (nonlinear_arith)
            requires
                0 <= unit <= per,
                0 <= reach <= blocks,
        ;
        assert(up * rise <= jump * rise && 0 <= jump * rise) by (nonlinear_arith)
            requires
                0 <= up <= jump,
                0 <= rise,
        ;
        lemma_pays(from, ox, rise, oz, edges[0], costs);
    }
}

proof fn lemma_falling_pays(
    from: BlockPos,
    ox: int,
    oz: int,
    drop: int,
    limit: int,
    t: Terrain,
    ctx: &MoveContext,
)
    requires
        parkour::jumpable(ox, oz),
        1 <= drop,
    ensures
        all_pay(from, parkour::falling_jump(from, ox, oz, drop, limit, t, ctx), ctx.costs),
    decreases limit + 1 - drop,
{
    let to = world::shift(from, ox, -drop, oz);
    if drop <= limit {
        if !t.dry_stands(to) {
            lemma_falling_pays(from, ox, oz, drop + 1, limit, t, ctx);
        } else {
            let edges = parkour::falling_jump(from, ox, oz, drop, limit, t, ctx);
            if edges.len() > 0 {
                let costs = ctx.costs;
                let blocks = parkour::travel_blocks(parkour::reach_squared(ox, oz));
                let reach = arith::max_int(arith::abs_int(ox), arith::abs_int(oz));
                lemma_blocks_cover_reach(ox, oz);
                let unit = goal::sideways_unit(costs);
                let per = costs.parkour_per_block as int;
                let fall = costs.fall_per_block as int;
                let down = goal::sinking_unit(costs);
                let toll = ctx.fall_damage_penalty as int;
                let hurt = moves::fall_damage(drop);
                assert(unit * reach <= per * blocks && 0 <= per * blocks) by (nonlinear_arith)
                    requires
                        0 <= unit <= per,
                        0 <= reach <= blocks,
                ;
                assert(down * drop <= fall * drop && 0 <= fall * drop && 0 <= toll * hurt)
                    by (nonlinear_arith)
                    requires
                        0 <= down <= fall,
                        0 <= drop,
                        0 <= toll,
                        0 <= hurt,
                ;
                lemma_pays(from, ox, -drop, oz, edges[0], costs);
            }
        }
    }
}

proof fn lemma_jumps_pay(from: BlockPos, n: nat, t: Terrain, ctx: &MoveContext)
    requires
        n <= parkour::LANDINGS,
    ensures
        all_pay(from, parkour::jumps_among(from, n, t, ctx), ctx.costs),
    decreases n,
{
    if n > 0 {
        let k = n - 1;
        let (ox, oz) = parkour::landing(k);
        parkour::lemma_landing(k);
        lemma_jumps_pay(from, k as nat, t, ctx);
        let there = parkour::jumps_towards(from, ox, oz, t, ctx);
        if parkour::jumpable(ox, oz) {
            let limit = moves::drop_limit(ctx.max_fall);
            lemma_rising_pays(from, ox, oz, 0, t, ctx);
            lemma_rising_pays(from, ox, oz, 1, t, ctx);
            lemma_falling_pays(from, ox, oz, 1, limit, t, ctx);
            let level = parkour::rising_jump(from, ox, oz, 0, t, ctx);
            let up = parkour::rising_jump(from, ox, oz, 1, t, ctx);
            let down = parkour::falling_jump(from, ox, oz, 1, limit, t, ctx);
            lemma_sum_pays(from, level, up, ctx.costs);
            lemma_sum_pays(from, level + up, down, ctx.costs);
        }
        lemma_sum_pays(
            from,
            parkour::jumps_among(from, k as nat, t, ctx),
            there,
            ctx.costs,
        );
    }
}

/// Every transition of every standard rule costs at least what the built-in
/// lower bound charges for the ground it covers, for all movement costs.
pub proof fn standard_moves_pay_their_way(
    movement: BuiltinMove,
    from: BlockPos,
    t: Terrain,
    ctx: &MoveContext,
)
    ensures
        all_pay(from, movement.offers(from, t, ctx), ctx.costs),
{
    lemma_walk_pays(from, t, ctx);
    lemma_climb_pays(from, t, ctx);
    lemma_swim_pays(from, t, ctx);
    lemma_fall_pays(from, t, ctx);
    lemma_jumps_pay(from, parkour::LANDINGS as nat, t, ctx);
}

} // verus!
