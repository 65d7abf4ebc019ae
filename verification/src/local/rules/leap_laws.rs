//! Which leaps are offered, block by block.
use vstd::prelude::*;

use crate::arith;
use crate::local::moves;
use crate::local::moves::{Edge, Move, MoveContext};
use crate::local::rules::drop_laws;
use crate::local::rules::flight_laws;
use crate::local::rules::offer;
use crate::local::rules::parkour;
use crate::local::rules::parkour::ParkourMove;
use crate::local::rules::step_laws;
use crate::local::world;
use crate::local::world::Terrain;
use crate::pos::BlockPos;
use crate::types::MoveKind;

verus! {

/// The block `(dx, dy, dz)` away.
pub open spec fn away(from: BlockPos, dx: int, dy: int, dz: int) -> BlockPos {
    BlockPos { x: (from.x + dx) as i32, y: (from.y + dy) as i32, z: (from.z + dz) as i32 }
}

/// Whether the block `(dx, dy, dz)` away is nothing that a body bumps into,
/// wades in or holds on to.
pub open spec fn empty(terrain: Terrain, from: BlockPos, dx: int, dy: int, dz: int) -> bool {
    let kind = terrain.kind(away(from, dx, dy, dz));
    kind is Air || kind is Passable
}

/// Whether there is ground to stand on `(bx, bz)` away, within a block of
/// level.
pub open spec fn ground(terrain: Terrain, from: BlockPos, bx: int, bz: int) -> bool {
    ||| step_laws::on_feet(terrain, away(from, bx, -1, bz))
    ||| step_laws::on_feet(terrain, away(from, bx, 0, bz))
    ||| step_laws::on_feet(terrain, away(from, bx, 1, bz))
}

/// How far an offset of a run-up lies behind along one axis.
pub open spec fn behind(offset: int, back: int) -> int {
    if offset > 0 {
        -back
    } else if offset < 0 {
        back
    } else {
        0
    }
}

/// Whether there is ground to run up from, `back` blocks behind a leap: along
/// it, or along either of its axes.
pub open spec fn runway(terrain: Terrain, from: BlockPos, ox: int, oz: int, back: int) -> bool {
    let bx = behind(ox, back);
    let bz = behind(oz, back);
    ||| ground(terrain, from, bx, bz)
    ||| bx != 0 && ground(terrain, from, bx, 0)
    ||| bz != 0 && ground(terrain, from, 0, bz)
}

/// The square of how far a leap goes on the level.
pub open spec fn far(from: BlockPos, to: BlockPos) -> int {
    (to.x - from.x) * (to.x - from.x) + (to.z - from.z) * (to.z - from.z)
}

/// How many blocks a leap counts.
pub open spec fn counted_blocks(squared: int) -> int {
    if squared <= 6 {
        2
    } else if squared <= 12 {
        3
    } else {
        4
    }
}

/// Whether a leap has room: in every column it flies over there is nothing to
/// stand on and nothing in the way, from the lower of its ends to over the
/// head of a jumping body at the higher one.
pub open spec fn room_to_fly(terrain: Terrain, from: BlockPos, to: BlockPos) -> bool {
    let rise = to.y - from.y;
    let low = arith::min_int(rise, 0);
    let high = 2 + arith::max_int(rise, 0);
    forall|cx: int, cz: int|
        flight_laws::crosses(to.x - from.x, to.z - from.z, cx, cz) ==> #[trigger] clear_column(
            terrain,
            from,
            cx,
            cz,
            low,
            high,
        )
}

pub open spec fn clear_column(
    terrain: Terrain,
    from: BlockPos,
    cx: int,
    cz: int,
    low: int,
    high: int,
) -> bool {
    &&& forall|dy: int| low <= dy <= high ==> #[trigger] empty(terrain, from, cx, dy, cz)
    &&& forall|dy: int| low <= dy <= 0 ==> !terrain.stands(#[trigger] away(from, cx, dy, cz))
}

/// Whether the far end of a falling leap is no landing `drop` blocks down, and
/// lets the body pass.
pub open spec fn falls_past(terrain: Terrain, from: BlockPos, to: BlockPos, drop: int) -> bool {
    let ox = to.x - from.x;
    let oz = to.z - from.z;
    &&& !step_laws::on_feet(terrain, away(from, ox, -drop, oz))
    &&& empty(terrain, from, ox, -drop, oz)
    &&& empty(terrain, from, ox, 1 - drop, oz)
}

/// Whether a leap leads from `from` along an edge.
pub open spec fn leapable(
    from: BlockPos,
    edge: Edge,
    terrain: Terrain,
    ctx: &MoveContext,
) -> bool {
    let to = edge.to;
    let ox = to.x - from.x;
    let oz = to.z - from.z;
    let rise = to.y - from.y;
    let squared = far(from, to);
    let blocks = counted_blocks(squared);
    let runs = runway(terrain, from, ox, oz, 1);
    &&& 4 <= squared <= 16
    &&& step_laws::on_feet(terrain, to)
    &&& empty(terrain, from, ox, rise + 1, oz)
    &&& room_to_fly(terrain, from, to)
    &&& edge.kind == (MoveKind::Parkour { blocks: blocks as u8, rise: rise as i8 })
    &&& if rise >= 0 {
        &&& rise <= 1
        &&& squared <= 9 || runs
        &&& squared <= 12 || runway(terrain, from, ox, oz, 2)
        &&& rise == 1 ==> squared <= 10 && empty(terrain, from, 0, 3, 0)
        &&& edge.cost == arith::min_int(
            ctx.costs.parkour_per_block * blocks + ctx.costs.jump * rise,
            u32::MAX as int,
        )
    } else {
        &&& -rise <= drop_laws::deepest(ctx)
        &&& forall|drop: int| 1 <= drop < -rise ==> #[trigger] falls_past(terrain, from, to, drop)
        &&& squared <= 6 || runs
        &&& edge.cost == arith::min_int(
            ctx.costs.parkour_per_block * blocks + ctx.costs.fall_per_block * (-rise)
                + ctx.fall_damage_penalty * arith::max_int(-rise - 3, 0),
            u32::MAX as int,
        )
    }
}

/// Whether a leap can start: on the feet, on a partial block or a solid one,
/// with head room to jump.
pub open spec fn takes_off(from: BlockPos, terrain: Terrain) -> bool {
    &&& !(terrain.kind(from) is Water) && !(terrain.kind(from) is Climbable)
    &&& empty(terrain, from, 0, 1, 0) && empty(terrain, from, 0, 2, 0)
    &&& terrain.kind(from) is Step || terrain.kind(away(from, 0, -1, 0)) is Solid
}

proof fn lemma_away(from: BlockPos, dx: int, dy: int, dz: int)
    requires
        step_laws::inland(from),
        -130 <= dx <= 130,
        -130 <= dy <= 130,
        -130 <= dz <= 130,
    ensures
        world::shift(from, dx, dy, dz) == away(from, dx, dy, dz),
{
}

proof fn lemma_runway(terrain: Terrain, from: BlockPos, ox: int, oz: int, back: int)
    requires
        step_laws::inland(from),
        1 <= back <= 2,
        ox != 0 || oz != 0,
    ensures
        parkour::run_up(terrain, from, ox, oz, back) <==> runway(terrain, from, ox, oz, back),
{
    let bx = behind(ox, back);
    let bz = behind(oz, back);
    assert(bx == -(parkour::sign(ox) * back)) by {
        assert(1 * back == back && (-1) * back == -back && 0 * back == 0) by (nonlinear_arith);
    }
    assert(bz == -(parkour::sign(oz) * back)) by {
        assert(1 * back == back && (-1) * back == -back && 0 * back == 0) by (nonlinear_arith);
    }
    lemma_ground(terrain, from, bx, bz);
    lemma_ground(terrain, from, bx, 0);
    lemma_ground(terrain, from, 0, bz);
}

proof fn lemma_ground(terrain: Terrain, from: BlockPos, bx: int, bz: int)
    requires
        step_laws::inland(from),
        -2 <= bx <= 2,
        -2 <= bz <= 2,
    ensures
        parkour::footing(terrain, from, bx, bz) <==> (bx != 0 || bz != 0) && ground(
            terrain,
            from,
            bx,
            bz,
        ),
{
    lemma_away(from, bx, -1, bz);
    lemma_away(from, bx, 0, bz);
    lemma_away(from, bx, 1, bz);
}

/// Columns that are crossed on the level or while rising.
proof fn lemma_rising_gap(terrain: Terrain, from: BlockPos, ox: int, oz: int, rise: int)
    requires
        step_laws::inland(from),
        parkour::jumpable(ox, oz),
        0 <= rise <= 1,
    ensures
        parkour::gap_is(
            from,
            ox,
            oz,
            |mid: BlockPos| parkour::crossable(terrain, mid, 2 + rise),
        ) <==> room_to_fly(terrain, from, away(from, ox, rise, oz)),
{
    lemma_reach(ox, oz);
    let to = away(from, ox, rise, oz);
    let clear = |mid: BlockPos| parkour::crossable(terrain, mid, 2 + rise);
    flight_laws::leaps_clear_what_they_fly_over(from, ox, oz, clear);
    assert forall|cx: int, cz: int| flight_laws::crosses(ox, oz, cx, cz) implies (
    #[trigger] clear_column(terrain, from, cx, cz, 0, 2 + rise) <==> clear(
        flight_laws::across(from, cx, cz),
    )) by {
        let mid = flight_laws::across(from, cx, cz);
        lemma_column(terrain, from, cx, cz, 0, 2 + rise);
        assert(away(from, cx, 0, cz) == mid);
    }
    lemma_columns_agree(terrain, from, ox, oz, 0, 2 + rise, clear);
    lemma_room(terrain, from, ox, oz, rise, 0, 2 + rise);
}

/// Columns that are crossed while dropping.
proof fn lemma_falling_gap(terrain: Terrain, from: BlockPos, ox: int, oz: int, drop: int)
    requires
        step_laws::inland(from),
        parkour::jumpable(ox, oz),
        1 <= drop <= 127,
    ensures
        parkour::gap_is(
            from,
            ox,
            oz,
            |mid: BlockPos| parkour::droppable(terrain, mid, drop),
        ) <==> room_to_fly(terrain, from, away(from, ox, -drop, oz)),
{
    lemma_reach(ox, oz);
    let clear = |mid: BlockPos| parkour::droppable(terrain, mid, drop);
    flight_laws::leaps_clear_what_they_fly_over(from, ox, oz, clear);
    assert forall|cx: int, cz: int| flight_laws::crosses(ox, oz, cx, cz) implies (
    #[trigger] clear_column(terrain, from, cx, cz, -drop, 2) <==> clear(
        flight_laws::across(from, cx, cz),
    )) by {
        lemma_column(terrain, from, cx, cz, -drop, 2);
    }
    lemma_columns_agree(terrain, from, ox, oz, -drop, 2, clear);
    lemma_room(terrain, from, ox, oz, -drop, -drop, 2);
}

proof fn lemma_room(
    terrain: Terrain,
    from: BlockPos,
    ox: int,
    oz: int,
    rise: int,
    low: int,
    high: int,
)
    requires
        step_laws::inland(from),
        -4 <= ox <= 4,
        -4 <= oz <= 4,
        -127 <= rise <= 1,
        low == arith::min_int(rise, 0),
        high == 2 + arith::max_int(rise, 0),
    ensures
        room_to_fly(terrain, from, away(from, ox, rise, oz)) <==> (forall|cx: int, cz: int|
            flight_laws::crosses(ox, oz, cx, cz) ==> #[trigger] clear_column(
                terrain,
                from,
                cx,
                cz,
                low,
                high,
            )),
{
    let to = away(from, ox, rise, oz);
    assert(to.x - from.x == ox && to.z - from.z == oz && to.y - from.y == rise);
}

proof fn lemma_columns_agree(
    terrain: Terrain,
    from: BlockPos,
    ox: int,
    oz: int,
    low: int,
    high: int,
    clear: spec_fn(BlockPos) -> bool,
)
    requires
        forall|cx: int, cz: int|
            flight_laws::crosses(ox, oz, cx, cz) ==> (#[trigger] clear_column(
                terrain,
                from,
                cx,
                cz,
                low,
                high,
            ) <==> clear(flight_laws::across(from, cx, cz))),
    ensures
        (forall|cx: int, cz: int|
            flight_laws::crosses(ox, oz, cx, cz) ==> #[trigger] clear_column(
                terrain,
                from,
                cx,
                cz,
                low,
                high,
            )) <==> (forall|cx: int, cz: int|
            flight_laws::crosses(ox, oz, cx, cz) ==> clear(
                #[trigger] flight_laws::across(from, cx, cz),
            )),
{
    if forall|cx: int, cz: int|
        flight_laws::crosses(ox, oz, cx, cz) ==> #[trigger] clear_column(
            terrain,
            from,
            cx,
            cz,
            low,
            high,
        ) {
        assert forall|cx: int, cz: int| flight_laws::crosses(ox, oz, cx, cz) implies clear(
            #[trigger] flight_laws::across(from, cx, cz),
        ) by {
            assert(clear_column(terrain, from, cx, cz, low, high));
        }
    }
    if forall|cx: int, cz: int|
        flight_laws::crosses(ox, oz, cx, cz) ==> clear(
            #[trigger] flight_laws::across(from, cx, cz),
        ) {
        assert forall|cx: int, cz: int|
            flight_laws::crosses(ox, oz, cx, cz) implies #[trigger] clear_column(
            terrain,
            from,
            cx,
            cz,
            low,
            high,
        ) by {
            assert(clear(flight_laws::across(from, cx, cz)));
        }
    }
}

proof fn lemma_column(
    terrain: Terrain,
    from: BlockPos,
    cx: int,
    cz: int,
    low: int,
    high: int,
)
    requires
        step_laws::inland(from),
        -4 <= cx <= 4,
        -4 <= cz <= 4,
        -127 <= low <= 0,
        0 <= high <= 3,
    ensures
        ({
            let mid = flight_laws::across(from, cx, cz);
            clear_column(terrain, from, cx, cz, low, high) <==> parkour::shaft_open(
                terrain,
                mid,
                low,
                high,
            ) && parkour::shaft_bare(terrain, mid, low, 0)
        }),
        low == 0 ==> (parkour::shaft_bare(
            terrain,
            flight_laws::across(from, cx, cz),
            0,
            0,
        ) <==> !terrain.stands(flight_laws::across(from, cx, cz))),
{
    let mid = flight_laws::across(from, cx, cz);
    assert forall|dy: int| low <= dy <= high implies #[trigger] world::shift(mid, 0, dy, 0) == away(
        from,
        cx,
        dy,
        cz,
    ) by {}
    if clear_column(terrain, from, cx, cz, low, high) {
        assert forall|dy: int| low <= dy <= high implies terrain.free(
            #[trigger] world::shift(mid, 0, dy, 0),
        ) by {
            assert(empty(terrain, from, cx, dy, cz));
        }
        assert forall|dy: int| low <= dy <= 0 implies !terrain.stands(
            #[trigger] world::shift(mid, 0, dy, 0),
        ) by {
            assert(!terrain.stands(away(from, cx, dy, cz)));
        }
    }
    if parkour::shaft_open(terrain, mid, low, high) && parkour::shaft_bare(terrain, mid, low, 0) {
        assert forall|dy: int| low <= dy <= high implies #[trigger] empty(
            terrain,
            from,
            cx,
            dy,
            cz,
        ) by {
            assert(terrain.free(world::shift(mid, 0, dy, 0)));
        }
        assert forall|dy: int| low <= dy <= 0 implies !terrain.stands(
            #[trigger] away(from, cx, dy, cz),
        ) by {
            assert(!terrain.stands(world::shift(mid, 0, dy, 0)));
        }
    }
    if low == 0 {
        assert(world::shift(mid, 0, 0, 0) == mid);
        if !terrain.stands(mid) {
            assert forall|dy: int| 0 <= dy <= 0 implies !terrain.stands(
                #[trigger] world::shift(mid, 0, dy, 0),
            ) by {
                assert(dy == 0);
            }
        }
    }
}

proof fn lemma_reach(ox: int, oz: int)
    requires
        parkour::jumpable(ox, oz),
    ensures
        -4 <= ox <= 4,
        -4 <= oz <= 4,
        ox != 0 || oz != 0,
{
    assert(-4 <= ox <= 4 && -4 <= oz <= 4) by (nonlinear_arith)
        requires
            ox * ox + oz * oz <= 16,
    ;
    assert(ox == 0 && oz == 0 ==> ox * ox + oz * oz == 0) by (nonlinear_arith);
}

proof fn lemma_rising(
    from: BlockPos,
    ox: int,
    oz: int,
    rise: int,
    edge: Edge,
    terrain: Terrain,
    ctx: &MoveContext,
)
    requires
        step_laws::inland(from),
        parkour::jumpable(ox, oz),
        0 <= rise <= 1,
    ensures
        parkour::rising_jump(from, ox, oz, rise, terrain, ctx).contains(edge) <==> edge.to == away(
            from,
            ox,
            rise,
            oz,
        ) && leapable(from, edge, terrain, ctx),
{
    broadcast use offer::lemma_contains_offer;

    lemma_reach(ox, oz);
    lemma_away(from, ox, rise, oz);
    lemma_away(from, 0, 2 + rise, 0);
    let to = away(from, ox, rise, oz);
    assert(world::shift(to, 0, 1, 0) == away(from, ox, rise + 1, oz));
    lemma_runway(terrain, from, ox, oz, 1);
    lemma_runway(terrain, from, ox, oz, 2);
    lemma_rising_gap(terrain, from, ox, oz, rise);
    let squared = parkour::reach_squared(ox, oz);
    assert(far(from, to) == squared);
    let blocks = parkour::travel_blocks(squared);
    let per = ctx.costs.parkour_per_block as int;
    let jump = ctx.costs.jump as int;
    assert(per * blocks + jump * rise >= 0) by (nonlinear_arith)
        requires
            per >= 0,
            blocks >= 0,
            jump >= 0,
            rise >= 0,
    ;
    assert(2 + rise == 3 || rise == 0);
}

proof fn lemma_falling(
    from: BlockPos,
    ox: int,
    oz: int,
    drop: int,
    limit: int,
    edge: Edge,
    terrain: Terrain,
    ctx: &MoveContext,
)
    requires
        step_laws::inland(from),
        parkour::jumpable(ox, oz),
        1 <= drop,
        limit <= 127,
        limit == drop_laws::deepest(ctx),
        forall|k: int|
            1 <= k < drop ==> #[trigger] falls_past(terrain, from, away(from, ox, 0, oz), k),
    ensures
        parkour::falling_jump(from, ox, oz, drop, limit, terrain, ctx).contains(edge) <==> edge.to
            == away(from, ox, edge.to.y - from.y, oz) && edge.to.y - from.y <= -drop && leapable(
            from,
            edge,
            terrain,
            ctx,
        ),
    decreases limit + 1 - drop,
{
    broadcast use offer::lemma_contains_offer, offer::lemma_contains_nothing;

    lemma_reach(ox, oz);
    if drop <= limit {
        let to = away(from, ox, -drop, oz);
        let level = away(from, ox, 0, oz);
        lemma_away(from, ox, -drop, oz);
        assert(world::shift(to, 0, 1, 0) == away(from, ox, 1 - drop, oz));
        let fits = edge.to == away(from, ox, edge.to.y - from.y, oz) && leapable(
            from,
            edge,
            terrain,
            ctx,
        );
        if fits {
            assert(edge.to.x - from.x == ox && edge.to.z - from.z == oz);
            assert forall|k: int| falls_past(terrain, from, edge.to, k) == #[trigger] falls_past(
                terrain,
                from,
                level,
                k,
            ) by {}
        }
        if !terrain.dry_stands(to) {
            if terrain.free(to) && terrain.free(world::shift(to, 0, 1, 0)) {
                assert(falls_past(terrain, from, level, drop));
                lemma_falling(from, ox, oz, drop + 1, limit, edge, terrain, ctx);
                if fits && edge.to.y - from.y == -drop {
                    assert(edge.to == to);
                }
            } else {
                if fits && edge.to.y - from.y < -drop {
                    assert(falls_past(terrain, from, edge.to, drop));
                }
                if fits && edge.to.y - from.y == -drop {
                    assert(edge.to == to);
                }
            }
        } else {
            if fits && edge.to.y - from.y < -drop {
                assert(falls_past(terrain, from, edge.to, drop));
            }
            lemma_runway(terrain, from, ox, oz, 1);
            lemma_falling_gap(terrain, from, ox, oz, drop);
            let squared = parkour::reach_squared(ox, oz);
            assert(far(from, to) == squared);
            let blocks = parkour::travel_blocks(squared);
            let per = ctx.costs.parkour_per_block as int;
            let each = ctx.costs.fall_per_block as int;
            let harm = ctx.fall_damage_penalty as int;
            let hurt = moves::fall_damage(drop);
            assert(per * blocks + each * drop + harm * hurt >= 0) by (nonlinear_arith)
                requires
                    per >= 0,
                    blocks >= 0,
                    each >= 0,
                    drop >= 0,
                    harm >= 0,
                    hurt >= 0,
            ;
            if edge.to == to {
                assert(forall|k: int|
                    falls_past(terrain, from, edge.to, k) == #[trigger] falls_past(
                        terrain,
                        from,
                        level,
                        k,
                    ));
                assert forall|k: int| 1 <= k < drop implies #[trigger] falls_past(
                    terrain,
                    from,
                    edge.to,
                    k,
                ) by {
                    assert(falls_past(terrain, from, level, k));
                }
            }
        }
    } else {
        if edge.to == away(from, ox, edge.to.y - from.y, oz) && leapable(from, edge, terrain, ctx) {
            assert(edge.to.y - from.y >= -limit);
        }
    }
}

proof fn lemma_towards(
    from: BlockPos,
    ox: int,
    oz: int,
    edge: Edge,
    terrain: Terrain,
    ctx: &MoveContext,
)
    requires
        step_laws::inland(from),
    ensures
        parkour::jumps_towards(from, ox, oz, terrain, ctx).contains(edge) <==> edge.to.x == from.x
            + ox && edge.to.z == from.z + oz && leapable(from, edge, terrain, ctx),
{
    broadcast use offer::lemma_contains_nothing;

    if parkour::jumpable(ox, oz) {
        lemma_reach(ox, oz);
        let limit = moves::drop_limit(ctx.max_fall);
        lemma_rising(from, ox, oz, 0, edge, terrain, ctx);
        lemma_rising(from, ox, oz, 1, edge, terrain, ctx);
        lemma_falling(from, ox, oz, 1, limit, edge, terrain, ctx);
        let a = parkour::rising_jump(from, ox, oz, 0, terrain, ctx);
        let b = parkour::rising_jump(from, ox, oz, 1, terrain, ctx);
        let c = parkour::falling_jump(from, ox, oz, 1, limit, terrain, ctx);
        offer::lemma_contains_add(a, b, edge);
        offer::lemma_contains_add(a + b, c, edge);
        if edge.to.x == from.x + ox && edge.to.z == from.z + oz {
            assert(edge.to == away(from, ox, edge.to.y - from.y, oz));
        }
    } else if edge.to.x == from.x + ox && edge.to.z == from.z + oz {
        assert(far(from, edge.to) == parkour::reach_squared(ox, oz));
    }
}

proof fn lemma_among(from: BlockPos, n: nat, edge: Edge, terrain: Terrain, ctx: &MoveContext)
    requires
        step_laws::inland(from),
    ensures
        parkour::jumps_among(from, n, terrain, ctx).contains(edge) <==> leapable(
            from,
            edge,
            terrain,
            ctx,
        ) && exists|k: int|
            0 <= k < n && #[trigger] parkour::landing(k) == (
                edge.to.x - from.x,
                edge.to.z - from.z,
            ),
    decreases n,
{
    broadcast use offer::lemma_contains_nothing;

    if n > 0 {
        let k = n - 1;
        let (ox, oz) = parkour::landing(k);
        lemma_among(from, k as nat, edge, terrain, ctx);
        lemma_towards(from, ox, oz, edge, terrain, ctx);
        offer::lemma_contains_add(
            parkour::jumps_among(from, k as nat, terrain, ctx),
            parkour::jumps_towards(from, ox, oz, terrain, ctx),
            edge,
        );
        if edge.to.x == from.x + ox && edge.to.z == from.z + oz {
            assert(parkour::landing(k) == (edge.to.x - from.x, edge.to.z - from.z));
        }
    }
}

/// Leaping offers exactly these jumps. They start on the feet with head room
/// and end on the feet with head room, two to four blocks away. Everything the
/// body flies over is empty and no footing. Level and rising ones need a runway
/// beyond three blocks, and a longer one beyond three and a half; one up reaches
/// no further than ten by the square, and needs more head room. Falling ones end
/// at the first footing under the far end, no deeper than allowed, and need a
/// runway beyond two blocks.
pub proof fn leaps_reach_these_blocks(
    from: BlockPos,
    edge: Edge,
    terrain: Terrain,
    ctx: &MoveContext,
)
    requires
        step_laws::inland(from),
    ensures
        ParkourMove.offers(from, terrain, ctx).contains(edge) <==> takes_off(from, terrain)
            && leapable(from, edge, terrain, ctx),
{
    broadcast use offer::lemma_contains_nothing;

    let ox = edge.to.x - from.x;
    let oz = edge.to.z - from.z;
    lemma_away(from, 0, 1, 0);
    lemma_away(from, 0, 2, 0);
    lemma_away(from, 0, -1, 0);
    assert(parkour::can_take_off(from, terrain) <==> takes_off(from, terrain));
    lemma_among(from, parkour::LANDINGS as nat, edge, terrain, ctx);
    parkour::every_landing_comes_once(ox, oz);
    if leapable(from, edge, terrain, ctx) {
        assert(parkour::jumpable(ox, oz));
    }
}

} // verus!
