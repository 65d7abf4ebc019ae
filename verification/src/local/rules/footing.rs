//! What every transition of the built-in rules has in common: it ends where a
//! body can hold itself, keeps dry land dry under a forbidding water policy, and
//! drops no deeper than configured.
use vstd::prelude::*;

use crate::arith;
use crate::local::moves;
use crate::local::moves::{Edge, Move, MoveContext, WaterPolicy};
use crate::local::rules::builtin::BuiltinMove;
use crate::local::rules::climb;
use crate::local::rules::fall;
use crate::local::rules::offer;
use crate::local::rules::parkour;
use crate::local::rules::swim;
use crate::local::rules::walk;
use crate::local::world;
use crate::local::world::Terrain;
use crate::pos::BlockPos;

verus! {

/// The deepest drop of one transition. A single block is walked, climbed or
/// swum whatever the limit on falls is.
pub open spec fn deepest_drop(ctx: &MoveContext) -> int {
    arith::max_int(moves::drop_limit(ctx.max_fall), 1)
}

/// Whether a transition ends on footing, stays out of forbidden water, and
/// drops no deeper than configured.
pub open spec fn lands_well(from: BlockPos, edge: Edge, terrain: Terrain, ctx: &MoveContext) -> bool {
    &&& terrain.stands(edge.to)
    &&& ctx.water_policy == WaterPolicy::Forbidden && !terrain.wet(from) ==> !terrain.wet(edge.to)
    &&& from.y - edge.to.y <= deepest_drop(ctx)
}

pub open spec fn all_land_well(
    from: BlockPos,
    edges: Seq<Edge>,
    terrain: Terrain,
    ctx: &MoveContext,
) -> bool {
    offer::all_edges(edges, |edge: Edge| lands_well(from, edge, terrain, ctx))
}

proof fn lemma_sum_lands(
    from: BlockPos,
    a: Seq<Edge>,
    b: Seq<Edge>,
    t: Terrain,
    ctx: &MoveContext,
)
    requires
        all_land_well(from, a, t, ctx),
        all_land_well(from, b, t, ctx),
    ensures
        all_land_well(from, a + b, t, ctx),
{
    offer::lemma_all_edges_add(a, b, |edge: Edge| lands_well(from, edge, t, ctx));
}

proof fn lemma_in_turn_lands(
    from: BlockPos,
    a: Seq<Edge>,
    b: Seq<Edge>,
    c: Seq<Edge>,
    d: Seq<Edge>,
    t: Terrain,
    ctx: &MoveContext,
)
    requires
        all_land_well(from, a, t, ctx),
        all_land_well(from, b, t, ctx),
        all_land_well(from, c, t, ctx),
        all_land_well(from, d, t, ctx),
    ensures
        all_land_well(from, offer::in_turn(a, b, c, d), t, ctx),
{
    lemma_sum_lands(from, a, b, t, ctx);
    lemma_sum_lands(from, a + b, c, t, ctx);
    lemma_sum_lands(from, a + b + c, d, t, ctx);
}

proof fn lemma_walk_side_lands(from: BlockPos, dx: int, dz: int, t: Terrain, ctx: &MoveContext)
    ensures
        all_land_well(from, walk::level_walk(from, dx, dz, t, ctx), t, ctx),
        all_land_well(from, walk::corner_walk(from, dx, dz, t, ctx), t, ctx),
        all_land_well(from, walk::step_pair(from, dx, dz, t, ctx), t, ctx),
        all_land_well(from, walk::hop(from, dx, dz, t, ctx), t, ctx),
{
    lemma_sum_lands(
        from,
        walk::step_walk(from, dx, 1, dz, t, ctx),
        walk::step_walk(from, dx, -1, dz, t, ctx),
        t,
        ctx,
    );
}

proof fn lemma_walk_lands(from: BlockPos, t: Terrain, ctx: &MoveContext)
    ensures
        all_land_well(from, walk::walk_offers(from, t, ctx), t, ctx),
        all_land_well(from, walk::jump_offers(from, t, ctx), t, ctx),
{
    lemma_walk_side_lands(from, 1, 0, t, ctx);
    lemma_walk_side_lands(from, -1, 0, t, ctx);
    lemma_walk_side_lands(from, 0, 1, t, ctx);
    lemma_walk_side_lands(from, 0, -1, t, ctx);
    lemma_walk_side_lands(from, 1, 1, t, ctx);
    lemma_walk_side_lands(from, 1, -1, t, ctx);
    lemma_walk_side_lands(from, -1, 1, t, ctx);
    lemma_walk_side_lands(from, -1, -1, t, ctx);
    lemma_in_turn_lands(
        from,
        walk::level_walk(from, 1, 0, t, ctx),
        walk::level_walk(from, -1, 0, t, ctx),
        walk::level_walk(from, 0, 1, t, ctx),
        walk::level_walk(from, 0, -1, t, ctx),
        t,
        ctx,
    );
    lemma_in_turn_lands(
        from,
        walk::corner_walk(from, 1, 1, t, ctx),
        walk::corner_walk(from, 1, -1, t, ctx),
        walk::corner_walk(from, -1, 1, t, ctx),
        walk::corner_walk(from, -1, -1, t, ctx),
        t,
        ctx,
    );
    lemma_in_turn_lands(
        from,
        walk::step_pair(from, 1, 0, t, ctx),
        walk::step_pair(from, -1, 0, t, ctx),
        walk::step_pair(from, 0, 1, t, ctx),
        walk::step_pair(from, 0, -1, t, ctx),
        t,
        ctx,
    );
    lemma_in_turn_lands(
        from,
        walk::hop(from, 1, 0, t, ctx),
        walk::hop(from, -1, 0, t, ctx),
        walk::hop(from, 0, 1, t, ctx),
        walk::hop(from, 0, -1, t, ctx),
        t,
        ctx,
    );
    let levels = walk::level_walks(from, t, ctx);
    let corners = walk::corner_walks(from, t, ctx);
    lemma_sum_lands(from, levels, corners, t, ctx);
    lemma_sum_lands(from, levels + corners, walk::step_walks(from, t, ctx), t, ctx);
}

proof fn lemma_climb_side_lands(from: BlockPos, dx: int, dz: int, t: Terrain, ctx: &MoveContext)
    ensures
        all_land_well(from, climb::grab_pair(from, dx, dz, t, ctx), t, ctx),
        all_land_well(from, climb::dismount_pair(from, dx, dz, t, ctx), t, ctx),
{
    lemma_sum_lands(
        from,
        climb::grab(from, dx, 0, dz, t, ctx),
        climb::grab(from, dx, 1, dz, t, ctx),
        t,
        ctx,
    );
    lemma_sum_lands(
        from,
        climb::dismount(from, dx, 0, dz, t, ctx),
        climb::dismount(from, dx, 1, dz, t, ctx),
        t,
        ctx,
    );
}

proof fn lemma_climb_lands(from: BlockPos, t: Terrain, ctx: &MoveContext)
    ensures
        all_land_well(from, climb::climb_offers(from, t, ctx), t, ctx),
{
    lemma_climb_side_lands(from, 1, 0, t, ctx);
    lemma_climb_side_lands(from, -1, 0, t, ctx);
    lemma_climb_side_lands(from, 0, 1, t, ctx);
    lemma_climb_side_lands(from, 0, -1, t, ctx);
    lemma_in_turn_lands(
        from,
        climb::grab_pair(from, 1, 0, t, ctx),
        climb::grab_pair(from, -1, 0, t, ctx),
        climb::grab_pair(from, 0, 1, t, ctx),
        climb::grab_pair(from, 0, -1, t, ctx),
        t,
        ctx,
    );
    lemma_in_turn_lands(
        from,
        climb::dismount_pair(from, 1, 0, t, ctx),
        climb::dismount_pair(from, -1, 0, t, ctx),
        climb::dismount_pair(from, 0, 1, t, ctx),
        climb::dismount_pair(from, 0, -1, t, ctx),
        t,
        ctx,
    );
    let up = climb::rung(from, 1, t, ctx);
    let down = climb::rung(from, -1, t, ctx);
    lemma_sum_lands(from, up, down, t, ctx);
    lemma_sum_lands(
        from,
        up + down,
        offer::in_turn(
            climb::dismount_pair(from, 1, 0, t, ctx),
            climb::dismount_pair(from, -1, 0, t, ctx),
            climb::dismount_pair(from, 0, 1, t, ctx),
            climb::dismount_pair(from, 0, -1, t, ctx),
        ),
        t,
        ctx,
    );
}

proof fn lemma_wade_pair_lands(from: BlockPos, dx: int, dz: int, t: Terrain, ctx: &MoveContext)
    requires
        ctx.water_policy != WaterPolicy::Forbidden,
    ensures
        all_land_well(from, swim::wade_pair(from, dx, dz, t, ctx), t, ctx),
{
    lemma_sum_lands(
        from,
        swim::wade(from, dx, 0, dz, t, ctx),
        swim::wade(from, dx, -1, dz, t, ctx),
        t,
        ctx,
    );
}

proof fn lemma_swim_lands(from: BlockPos, t: Terrain, ctx: &MoveContext)
    ensures
        all_land_well(from, swim::swim_offers(from, t, ctx), t, ctx),
{
    if !t.wet(from) && ctx.water_policy != WaterPolicy::Forbidden {
        lemma_wade_pair_lands(from, 1, 0, t, ctx);
        lemma_wade_pair_lands(from, -1, 0, t, ctx);
        lemma_wade_pair_lands(from, 0, 1, t, ctx);
        lemma_wade_pair_lands(from, 0, -1, t, ctx);
        lemma_in_turn_lands(
            from,
            swim::wade_pair(from, 1, 0, t, ctx),
            swim::wade_pair(from, -1, 0, t, ctx),
            swim::wade_pair(from, 0, 1, t, ctx),
            swim::wade_pair(from, 0, -1, t, ctx),
            t,
            ctx,
        );
    }
    if t.wet(from) {
        lemma_in_turn_lands(
            from,
            swim::stroke(from, 1, 0, t, ctx),
            swim::stroke(from, -1, 0, t, ctx),
            swim::stroke(from, 0, 1, t, ctx),
            swim::stroke(from, 0, -1, t, ctx),
            t,
            ctx,
        );
        lemma_in_turn_lands(
            from,
            swim::bank_exit(from, 1, 0, t, ctx),
            swim::bank_exit(from, -1, 0, t, ctx),
            swim::bank_exit(from, 0, 1, t, ctx),
            swim::bank_exit(from, 0, -1, t, ctx),
            t,
            ctx,
        );
        let strokes = offer::in_turn(
            swim::stroke(from, 1, 0, t, ctx),
            swim::stroke(from, -1, 0, t, ctx),
            swim::stroke(from, 0, 1, t, ctx),
            swim::stroke(from, 0, -1, t, ctx),
        );
        let up = swim::dive(from, 1, t, ctx);
        let down = swim::dive(from, -1, t, ctx);
        lemma_sum_lands(from, up, down, t, ctx);
        lemma_sum_lands(from, strokes, up + down, t, ctx);
        lemma_sum_lands(from, strokes + (up + down), swim::bank_exits(from, t, ctx), t, ctx);
    }
}

proof fn lemma_landing_lands(
    from: BlockPos,
    dx: int,
    dz: int,
    drop: int,
    t: Terrain,
    ctx: &MoveContext,
)
    requires
        1 <= drop,
    ensures
        all_land_well(
            from,
            fall::landing_below(
                world::shift(from, dx, 0, dz),
                drop,
                moves::drop_limit(ctx.max_fall),
                t,
                ctx,
            ),
            t,
            ctx,
        ),
    decreases moves::drop_limit(ctx.max_fall) + 1 - drop,
{
    if drop <= moves::drop_limit(ctx.max_fall) {
        lemma_landing_lands(from, dx, dz, drop + 1, t, ctx);
    }
}

proof fn lemma_fall_lands(from: BlockPos, t: Terrain, ctx: &MoveContext)
    ensures
        all_land_well(from, fall::fall_offers(from, t, ctx), t, ctx),
{
    lemma_landing_lands(from, 1, 0, 1, t, ctx);
    lemma_landing_lands(from, -1, 0, 1, t, ctx);
    lemma_landing_lands(from, 0, 1, 1, t, ctx);
    lemma_landing_lands(from, 0, -1, 1, t, ctx);
    lemma_in_turn_lands(
        from,
        fall::side_fall(from, 1, 0, t, ctx),
        fall::side_fall(from, -1, 0, t, ctx),
        fall::side_fall(from, 0, 1, t, ctx),
        fall::side_fall(from, 0, -1, t, ctx),
        t,
        ctx,
    );
}

proof fn lemma_falling_lands(
    from: BlockPos,
    ox: int,
    oz: int,
    drop: int,
    t: Terrain,
    ctx: &MoveContext,
)
    requires
        1 <= drop,
    ensures
        all_land_well(
            from,
            parkour::falling_jump(
                from,
                ox,
                oz,
                drop,
                moves::drop_limit(ctx.max_fall),
                t,
                ctx,
            ),
            t,
            ctx,
        ),
    decreases moves::drop_limit(ctx.max_fall) + 1 - drop,
{
    if drop <= moves::drop_limit(ctx.max_fall) {
        lemma_falling_lands(from, ox, oz, drop + 1, t, ctx);
    }
}

proof fn lemma_jumps_land(from: BlockPos, n: nat, t: Terrain, ctx: &MoveContext)
    ensures
        all_land_well(from, parkour::jumps_among(from, n, t, ctx), t, ctx),
    decreases n,
{
    if n > 0 {
        let k = n - 1;
        let (ox, oz) = parkour::landing(k);
        lemma_jumps_land(from, k as nat, t, ctx);
        lemma_falling_lands(from, ox, oz, 1, t, ctx);
        let level = parkour::rising_jump(from, ox, oz, 0, t, ctx);
        let up = parkour::rising_jump(from, ox, oz, 1, t, ctx);
        let down = parkour::falling_jump(
            from,
            ox,
            oz,
            1,
            moves::drop_limit(ctx.max_fall),
            t,
            ctx,
        );
        lemma_sum_lands(from, level, up, t, ctx);
        lemma_sum_lands(from, level + up, down, t, ctx);
        lemma_sum_lands(
            from,
            parkour::jumps_among(from, k as nat, t, ctx),
            parkour::jumps_towards(from, ox, oz, t, ctx),
            t,
            ctx,
        );
    }
}

/// Every transition of every standard rule ends where the body holds itself,
/// never enters water from dry land while water is forbidden, and drops no
/// deeper than configured.
pub proof fn standard_moves_land_well(
    movement: BuiltinMove,
    from: BlockPos,
    terrain: Terrain,
    ctx: &MoveContext,
)
    ensures
        all_land_well(from, movement.offers(from, terrain, ctx), terrain, ctx),
{
    lemma_walk_lands(from, terrain, ctx);
    lemma_climb_lands(from, terrain, ctx);
    lemma_swim_lands(from, terrain, ctx);
    lemma_fall_lands(from, terrain, ctx);
    lemma_jumps_land(from, parkour::LANDINGS as nat, terrain, ctx);
}

} // verus!
