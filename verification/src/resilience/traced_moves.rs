//! The footprints of built-in transitions can always be traced.
use vstd::prelude::*;

use crate::arith;
use crate::local::moves;
use crate::local::moves::{Edge, Move, MoveContext};
use crate::local::rules::builtin::BuiltinMove;
use crate::local::rules::climb;
use crate::local::rules::fall;
use crate::local::rules::offer;
use crate::local::rules::parkour;
use crate::local::rules::swim;
use crate::local::rules::walk;
use crate::local::world;
use crate::local::world::Terrain;
use crate::pos::BlockPos;
use crate::resilience::footprint;
use crate::resilience::locality;
use crate::types::MoveKind;

verus! {

/// Whether the cells of a transition can be enumerated.
pub open spec fn traced(from: BlockPos, edge: Edge) -> bool {
    footprint::traceable(from, edge.to, edge.kind)
}

pub open spec fn all_traced(from: BlockPos, edges: Seq<Edge>) -> bool {
    offer::all_edges(edges, |edge: Edge| traced(from, edge))
}

proof fn lemma_sum_traced(from: BlockPos, a: Seq<Edge>, b: Seq<Edge>)
    requires
        all_traced(from, a),
        all_traced(from, b),
    ensures
        all_traced(from, a + b),
{
    offer::lemma_all_edges_add(a, b, |edge: Edge| traced(from, edge));
}

proof fn lemma_in_turn_traced(
    from: BlockPos,
    a: Seq<Edge>,
    b: Seq<Edge>,
    c: Seq<Edge>,
    d: Seq<Edge>,
)
    requires
        all_traced(from, a),
        all_traced(from, b),
        all_traced(from, c),
        all_traced(from, d),
    ensures
        all_traced(from, offer::in_turn(a, b, c, d)),
{
    lemma_sum_traced(from, a, b);
    lemma_sum_traced(from, a + b, c);
    lemma_sum_traced(from, a + b + c, d);
}

proof fn lemma_walk_side_traced(from: BlockPos, dx: int, dz: int, t: Terrain, ctx: &MoveContext)
    requires
        locality::inland(from),
        -1 <= dx <= 1,
        -1 <= dz <= 1,
        (dx == 0) != (dz == 0),
    ensures
        all_traced(from, walk::level_walk(from, dx, dz, t, ctx)),
        all_traced(from, walk::step_pair(from, dx, dz, t, ctx)),
        all_traced(from, walk::hop(from, dx, dz, t, ctx)),
{
    lemma_sum_traced(
        from,
        walk::step_walk(from, dx, 1, dz, t, ctx),
        walk::step_walk(from, dx, -1, dz, t, ctx),
    );
}

proof fn lemma_corner_traced(from: BlockPos, dx: int, dz: int, t: Terrain, ctx: &MoveContext)
    requires
        locality::inland(from),
        dx == 1 || dx == -1,
        dz == 1 || dz == -1,
    ensures
        all_traced(from, walk::corner_walk(from, dx, dz, t, ctx)),
{
}

proof fn lemma_walk_traced(from: BlockPos, t: Terrain, ctx: &MoveContext)
    requires
        locality::inland(from),
    ensures
        all_traced(from, walk::walk_offers(from, t, ctx)),
        all_traced(from, walk::jump_offers(from, t, ctx)),
{
    lemma_walk_side_traced(from, 1, 0, t, ctx);
    lemma_walk_side_traced(from, -1, 0, t, ctx);
    lemma_walk_side_traced(from, 0, 1, t, ctx);
    lemma_walk_side_traced(from, 0, -1, t, ctx);
    lemma_corner_traced(from, 1, 1, t, ctx);
    lemma_corner_traced(from, 1, -1, t, ctx);
    lemma_corner_traced(from, -1, 1, t, ctx);
    lemma_corner_traced(from, -1, -1, t, ctx);
    lemma_in_turn_traced(
        from,
        walk::level_walk(from, 1, 0, t, ctx),
        walk::level_walk(from, -1, 0, t, ctx),
        walk::level_walk(from, 0, 1, t, ctx),
        walk::level_walk(from, 0, -1, t, ctx),
    );
    lemma_in_turn_traced(
        from,
        walk::corner_walk(from, 1, 1, t, ctx),
        walk::corner_walk(from, 1, -1, t, ctx),
        walk::corner_walk(from, -1, 1, t, ctx),
        walk::corner_walk(from, -1, -1, t, ctx),
    );
    lemma_in_turn_traced(
        from,
        walk::step_pair(from, 1, 0, t, ctx),
        walk::step_pair(from, -1, 0, t, ctx),
        walk::step_pair(from, 0, 1, t, ctx),
        walk::step_pair(from, 0, -1, t, ctx),
    );
    lemma_in_turn_traced(
        from,
        walk::hop(from, 1, 0, t, ctx),
        walk::hop(from, -1, 0, t, ctx),
        walk::hop(from, 0, 1, t, ctx),
        walk::hop(from, 0, -1, t, ctx),
    );
    let levels = walk::level_walks(from, t, ctx);
    let corners = walk::corner_walks(from, t, ctx);
    lemma_sum_traced(from, levels, corners);
    lemma_sum_traced(from, levels + corners, walk::step_walks(from, t, ctx));
}

proof fn lemma_climb_side_traced(from: BlockPos, dx: int, dz: int, t: Terrain, ctx: &MoveContext)
    requires
        locality::inland(from),
        -1 <= dx <= 1,
        -1 <= dz <= 1,
        (dx == 0) != (dz == 0),
    ensures
        all_traced(from, climb::grab_pair(from, dx, dz, t, ctx)),
        all_traced(from, climb::dismount_pair(from, dx, dz, t, ctx)),
{
    lemma_sum_traced(
        from,
        climb::grab(from, dx, 0, dz, t, ctx),
        climb::grab(from, dx, 1, dz, t, ctx),
    );
    lemma_sum_traced(
        from,
        climb::dismount(from, dx, 0, dz, t, ctx),
        climb::dismount(from, dx, 1, dz, t, ctx),
    );
}

proof fn lemma_climb_traced(from: BlockPos, t: Terrain, ctx: &MoveContext)
    requires
        locality::inland(from),
    ensures
        all_traced(from, climb::climb_offers(from, t, ctx)),
{
    lemma_climb_side_traced(from, 1, 0, t, ctx);
    lemma_climb_side_traced(from, -1, 0, t, ctx);
    lemma_climb_side_traced(from, 0, 1, t, ctx);
    lemma_climb_side_traced(from, 0, -1, t, ctx);
    lemma_in_turn_traced(
        from,
        climb::grab_pair(from, 1, 0, t, ctx),
        climb::grab_pair(from, -1, 0, t, ctx),
        climb::grab_pair(from, 0, 1, t, ctx),
        climb::grab_pair(from, 0, -1, t, ctx),
    );
    lemma_in_turn_traced(
        from,
        climb::dismount_pair(from, 1, 0, t, ctx),
        climb::dismount_pair(from, -1, 0, t, ctx),
        climb::dismount_pair(from, 0, 1, t, ctx),
        climb::dismount_pair(from, 0, -1, t, ctx),
    );
    let up = climb::rung(from, 1, t, ctx);
    let down = climb::rung(from, -1, t, ctx);
    lemma_sum_traced(from, up, down);
    lemma_sum_traced(
        from,
        up + down,
        offer::in_turn(
            climb::dismount_pair(from, 1, 0, t, ctx),
            climb::dismount_pair(from, -1, 0, t, ctx),
            climb::dismount_pair(from, 0, 1, t, ctx),
            climb::dismount_pair(from, 0, -1, t, ctx),
        ),
    );
}

proof fn lemma_wade_pair_traced(from: BlockPos, dx: int, dz: int, t: Terrain, ctx: &MoveContext)
    requires
        locality::inland(from),
        -1 <= dx <= 1,
        -1 <= dz <= 1,
        (dx == 0) != (dz == 0),
    ensures
        all_traced(from, swim::wade_pair(from, dx, dz, t, ctx)),
{
    lemma_sum_traced(
        from,
        swim::wade(from, dx, 0, dz, t, ctx),
        swim::wade(from, dx, -1, dz, t, ctx),
    );
}

proof fn lemma_swim_traced(from: BlockPos, t: Terrain, ctx: &MoveContext)
    requires
        locality::inland(from),
    ensures
        all_traced(from, swim::swim_offers(from, t, ctx)),
{
    if !t.wet(from) {
        lemma_wade_pair_traced(from, 1, 0, t, ctx);
        lemma_wade_pair_traced(from, -1, 0, t, ctx);
        lemma_wade_pair_traced(from, 0, 1, t, ctx);
        lemma_wade_pair_traced(from, 0, -1, t, ctx);
        lemma_in_turn_traced(
            from,
            swim::wade_pair(from, 1, 0, t, ctx),
            swim::wade_pair(from, -1, 0, t, ctx),
            swim::wade_pair(from, 0, 1, t, ctx),
            swim::wade_pair(from, 0, -1, t, ctx),
        );
    }
    if t.wet(from) {
        lemma_in_turn_traced(
            from,
            swim::stroke(from, 1, 0, t, ctx),
            swim::stroke(from, -1, 0, t, ctx),
            swim::stroke(from, 0, 1, t, ctx),
            swim::stroke(from, 0, -1, t, ctx),
        );
        lemma_in_turn_traced(
            from,
            swim::bank_exit(from, 1, 0, t, ctx),
            swim::bank_exit(from, -1, 0, t, ctx),
            swim::bank_exit(from, 0, 1, t, ctx),
            swim::bank_exit(from, 0, -1, t, ctx),
        );
        let strokes = offer::in_turn(
            swim::stroke(from, 1, 0, t, ctx),
            swim::stroke(from, -1, 0, t, ctx),
            swim::stroke(from, 0, 1, t, ctx),
            swim::stroke(from, 0, -1, t, ctx),
        );
        let up = swim::dive(from, 1, t, ctx);
        let down = swim::dive(from, -1, t, ctx);
        lemma_sum_traced(from, up, down);
        lemma_sum_traced(from, strokes, up + down);
        lemma_sum_traced(from, strokes + (up + down), swim::bank_exits(from, t, ctx));
    }
}

proof fn lemma_landing_traced(
    from: BlockPos,
    dx: int,
    dz: int,
    drop: int,
    t: Terrain,
    ctx: &MoveContext,
)
    requires
        locality::inland(from),
        -1 <= dx <= 1,
        -1 <= dz <= 1,
        (dx == 0) != (dz == 0),
        1 <= drop,
    ensures
        all_traced(
            from,
            fall::landing_below(
                world::shift(from, dx, 0, dz),
                drop,
                moves::drop_limit(ctx.max_fall),
                t,
                ctx,
            ),
        ),
    decreases moves::drop_limit(ctx.max_fall) + 1 - drop,
{
    if drop <= moves::drop_limit(ctx.max_fall) {
        lemma_landing_traced(from, dx, dz, drop + 1, t, ctx);
    }
}

proof fn lemma_fall_traced(from: BlockPos, t: Terrain, ctx: &MoveContext)
    requires
        locality::inland(from),
    ensures
        all_traced(from, fall::fall_offers(from, t, ctx)),
{
    lemma_landing_traced(from, 1, 0, 1, t, ctx);
    lemma_landing_traced(from, -1, 0, 1, t, ctx);
    lemma_landing_traced(from, 0, 1, 1, t, ctx);
    lemma_landing_traced(from, 0, -1, 1, t, ctx);
    lemma_in_turn_traced(
        from,
        fall::side_fall(from, 1, 0, t, ctx),
        fall::side_fall(from, -1, 0, t, ctx),
        fall::side_fall(from, 0, 1, t, ctx),
        fall::side_fall(from, 0, -1, t, ctx),
    );
}

/// A jump by an offset has the geometry of a jump.
proof fn lemma_jump_geometry(from: BlockPos, ox: int, dy: int, oz: int, edge: Edge)
    requires
        locality::inland(from),
        -4 <= ox <= 4,
        -4 <= oz <= 4,
        -127 <= dy <= 1,
        parkour::jumpable(ox, oz),
        edge.to == world::shift(from, ox, dy, oz),
        edge.kind == (MoveKind::Parkour {
            blocks: parkour::travel_blocks(parkour::reach_squared(ox, oz)) as u8,
            rise: dy as i8,
        }),
    ensures
        traced(from, edge),
{
    let ax = arith::abs_int(ox);
    let az = arith::abs_int(oz);
    assert(ax * ax == ox * ox && az * az == oz * oz) by (nonlinear_arith)
        requires
            ax == ox || ax == -ox,
            az == oz || az == -oz,
    ;
}

proof fn lemma_falling_traced(
    from: BlockPos,
    ox: int,
    oz: int,
    drop: int,
    t: Terrain,
    ctx: &MoveContext,
)
    requires
        locality::inland(from),
        -4 <= ox <= 4,
        -4 <= oz <= 4,
        parkour::jumpable(ox, oz),
        1 <= drop,
    ensures
        all_traced(
            from,
            parkour::falling_jump(
                from,
                ox,
                oz,
                drop,
                moves::drop_limit(ctx.max_fall),
                t,
                ctx,
            ),
        ),
    decreases moves::drop_limit(ctx.max_fall) + 1 - drop,
{
    if drop <= moves::drop_limit(ctx.max_fall) {
        lemma_falling_traced(from, ox, oz, drop + 1, t, ctx);
        let edges = parkour::falling_jump(
            from,
            ox,
            oz,
            drop,
            moves::drop_limit(ctx.max_fall),
            t,
            ctx,
        );
        if t.dry_stands(world::shift(from, ox, -drop, oz)) && edges.len() > 0 {
            lemma_jump_geometry(from, ox, -drop, oz, edges[0]);
        }
    }
}

proof fn lemma_jumps_traced(from: BlockPos, n: nat, t: Terrain, ctx: &MoveContext)
    requires
        locality::inland(from),
        n <= parkour::LANDINGS,
    ensures
        all_traced(from, parkour::jumps_among(from, n, t, ctx)),
    decreases n,
{
    if n > 0 {
        let k = n - 1;
        let (ox, oz) = parkour::landing(k);
        parkour::lemma_landing(k);
        lemma_jumps_traced(from, k as nat, t, ctx);
        if parkour::jumpable(ox, oz) {
            lemma_falling_traced(from, ox, oz, 1, t, ctx);
            let level = parkour::rising_jump(from, ox, oz, 0, t, ctx);
            if level.len() > 0 {
                lemma_jump_geometry(from, ox, 0, oz, level[0]);
            }
            let up = parkour::rising_jump(from, ox, oz, 1, t, ctx);
            if up.len() > 0 {
                lemma_jump_geometry(from, ox, 1, oz, up[0]);
            }
            let down = parkour::falling_jump(
                from,
                ox,
                oz,
                1,
                moves::drop_limit(ctx.max_fall),
                t,
                ctx,
            );
            lemma_sum_traced(from, level, up);
            lemma_sum_traced(from, level + up, down);
        }
        lemma_sum_traced(
            from,
            parkour::jumps_among(from, k as nat, t, ctx),
            parkour::jumps_towards(from, ox, oz, t, ctx),
        );
    }
}

/// Every transition that a standard rule offers away from the ends of the
/// coordinate range has a geometry whose footprint can be traced.
pub proof fn standard_moves_are_traceable(
    movement: BuiltinMove,
    from: BlockPos,
    terrain: Terrain,
    ctx: &MoveContext,
)
    requires
        locality::inland(from),
    ensures
        all_traced(from, movement.offers(from, terrain, ctx)),
{
    lemma_walk_traced(from, terrain, ctx);
    lemma_climb_traced(from, terrain, ctx);
    lemma_swim_traced(from, terrain, ctx);
    lemma_fall_traced(from, terrain, ctx);
    lemma_jumps_traced(from, parkour::LANDINGS as nat, terrain, ctx);
}

} // verus!
