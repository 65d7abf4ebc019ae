//! Every built-in rule keeps a transition whose footprint no change touches.
use vstd::prelude::*;

use crate::arith;
use crate::local::moves;
use crate::local::moves::{Edge, Move, MoveContext};
use crate::local::rules::builtin::BuiltinMove;
use crate::local::rules::climb;
use crate::local::rules::fall;
use crate::local::rules::offer;
use crate::local::rules::parkour;
use crate::local::rules::swim;
use crate::local::rules::walk;
use crate::local::world;
use crate::local::world::Terrain;
use crate::pos::BlockPos;
use crate::resilience::cells;
use crate::resilience::footprint;
use crate::resilience::locality;

verus! {

proof fn lemma_level_kept(
    from: BlockPos,
    dx: int,
    dz: int,
    a: Terrain,
    b: Terrain,
    ctx: &MoveContext,
)
    requires
        a.by_blocks(),
        b.by_blocks(),
        locality::inland(from),
        -1 <= dx <= 1,
        -1 <= dz <= 1,
    ensures
        locality::kept(
            from,
            walk::level_walk(from, dx, dz, a, ctx),
            walk::level_walk(from, dx, dz, b, ctx),
            a,
            b,
            ctx,
        ),
{
    let before = walk::level_walk(from, dx, dz, a, ctx);
    let after = walk::level_walk(from, dx, dz, b, ctx);
    if before.len() == 1 && locality::untouched(from, before[0], a, b, ctx) {
        locality::lemma_ends(from, before[0], a, b, ctx);
        assert(after =~= before);
    }
    locality::lemma_one_kept(from, before, after, a, b, ctx);
}

proof fn lemma_step_kept(
    from: BlockPos,
    dx: int,
    dy: int,
    dz: int,
    a: Terrain,
    b: Terrain,
    ctx: &MoveContext,
)
    requires
        a.by_blocks(),
        b.by_blocks(),
        locality::inland(from),
        -1 <= dx <= 1,
        -1 <= dz <= 1,
        dy == 1 || dy == -1,
    ensures
        locality::kept(
            from,
            walk::step_walk(from, dx, dy, dz, a, ctx),
            walk::step_walk(from, dx, dy, dz, b, ctx),
            a,
            b,
            ctx,
        ),
{
    let before = walk::step_walk(from, dx, dy, dz, a, ctx);
    let after = walk::step_walk(from, dx, dy, dz, b, ctx);
    if before.len() == 1 && locality::untouched(from, before[0], a, b, ctx) {
        locality::lemma_ends(from, before[0], a, b, ctx);
        assert(after =~= before);
    }
    locality::lemma_one_kept(from, before, after, a, b, ctx);
}

proof fn lemma_hop_kept(
    from: BlockPos,
    dx: int,
    dz: int,
    a: Terrain,
    b: Terrain,
    ctx: &MoveContext,
)
    requires
        a.by_blocks(),
        b.by_blocks(),
        locality::inland(from),
        -1 <= dx <= 1,
        -1 <= dz <= 1,
    ensures
        locality::kept(
            from,
            walk::hop(from, dx, dz, a, ctx),
            walk::hop(from, dx, dz, b, ctx),
            a,
            b,
            ctx,
        ),
{
    let before = walk::hop(from, dx, dz, a, ctx);
    let after = walk::hop(from, dx, dz, b, ctx);
    if before.len() == 1 && locality::untouched(from, before[0], a, b, ctx) {
        locality::lemma_ends(from, before[0], a, b, ctx);
        assert(after =~= before);
    }
    locality::lemma_one_kept(from, before, after, a, b, ctx);
}

proof fn lemma_corner_kept(
    from: BlockPos,
    dx: int,
    dz: int,
    a: Terrain,
    b: Terrain,
    ctx: &MoveContext,
)
    requires
        a.by_blocks(),
        b.by_blocks(),
        locality::inland(from),
        -1 <= dx <= 1,
        -1 <= dz <= 1,
        dx != 0 && dz != 0,
    ensures
        locality::kept(
            from,
            walk::corner_walk(from, dx, dz, a, ctx),
            walk::corner_walk(from, dx, dz, b, ctx),
            a,
            b,
            ctx,
        ),
{
    let before = walk::corner_walk(from, dx, dz, a, ctx);
    let after = walk::corner_walk(from, dx, dz, b, ctx);
    if before.len() == 1 && locality::untouched(from, before[0], a, b, ctx) {
        locality::lemma_ends(from, before[0], a, b, ctx);
        locality::lemma_corners(from, before[0], a, b, ctx);
        assert(after =~= before);
    }
    locality::lemma_one_kept(from, before, after, a, b, ctx);
}

proof fn lemma_walk_side_kept(
    from: BlockPos,
    dx: int,
    dz: int,
    a: Terrain,
    b: Terrain,
    ctx: &MoveContext,
)
    requires
        a.by_blocks(),
        b.by_blocks(),
        locality::inland(from),
        -1 <= dx <= 1,
        -1 <= dz <= 1,
    ensures
        locality::kept(
            from,
            walk::level_walk(from, dx, dz, a, ctx),
            walk::level_walk(from, dx, dz, b, ctx),
            a,
            b,
            ctx,
        ),
        locality::kept(
            from,
            walk::step_pair(from, dx, dz, a, ctx),
            walk::step_pair(from, dx, dz, b, ctx),
            a,
            b,
            ctx,
        ),
        locality::kept(
            from,
            walk::hop(from, dx, dz, a, ctx),
            walk::hop(from, dx, dz, b, ctx),
            a,
            b,
            ctx,
        ),
{
    lemma_level_kept(from, dx, dz, a, b, ctx);
    lemma_hop_kept(from, dx, dz, a, b, ctx);
    lemma_step_kept(from, dx, 1, dz, a, b, ctx);
    lemma_step_kept(from, dx, -1, dz, a, b, ctx);
    locality::lemma_sum_kept(
        from,
        walk::step_walk(from, dx, 1, dz, a, ctx),
        walk::step_walk(from, dx, -1, dz, a, ctx),
        walk::step_walk(from, dx, 1, dz, b, ctx),
        walk::step_walk(from, dx, -1, dz, b, ctx),
        a,
        b,
        ctx,
    );
}

proof fn lemma_walk_kept(from: BlockPos, a: Terrain, b: Terrain, ctx: &MoveContext)
    requires
        a.by_blocks(),
        b.by_blocks(),
        locality::inland(from),
    ensures
        locality::kept(from, walk::walk_offers(from, a, ctx), walk::walk_offers(from, b, ctx), a, b, ctx),
        locality::kept(from, walk::jump_offers(from, a, ctx), walk::jump_offers(from, b, ctx), a, b, ctx),
{
    lemma_walk_side_kept(from, 1, 0, a, b, ctx);
    lemma_walk_side_kept(from, -1, 0, a, b, ctx);
    lemma_walk_side_kept(from, 0, 1, a, b, ctx);
    lemma_walk_side_kept(from, 0, -1, a, b, ctx);
    lemma_corner_kept(from, 1, 1, a, b, ctx);
    lemma_corner_kept(from, 1, -1, a, b, ctx);
    lemma_corner_kept(from, -1, 1, a, b, ctx);
    lemma_corner_kept(from, -1, -1, a, b, ctx);
    locality::lemma_in_turn_kept(
        from,
        (
            walk::level_walk(from, 1, 0, a, ctx),
            walk::level_walk(from, -1, 0, a, ctx),
            walk::level_walk(from, 0, 1, a, ctx),
            walk::level_walk(from, 0, -1, a, ctx),
        ),
        (
            walk::level_walk(from, 1, 0, b, ctx),
            walk::level_walk(from, -1, 0, b, ctx),
            walk::level_walk(from, 0, 1, b, ctx),
            walk::level_walk(from, 0, -1, b, ctx),
        ),
        a,
        b,
        ctx,
    );
    locality::lemma_in_turn_kept(
        from,
        (
            walk::corner_walk(from, 1, 1, a, ctx),
            walk::corner_walk(from, 1, -1, a, ctx),
            walk::corner_walk(from, -1, 1, a, ctx),
            walk::corner_walk(from, -1, -1, a, ctx),
        ),
        (
            walk::corner_walk(from, 1, 1, b, ctx),
            walk::corner_walk(from, 1, -1, b, ctx),
            walk::corner_walk(from, -1, 1, b, ctx),
            walk::corner_walk(from, -1, -1, b, ctx),
        ),
        a,
        b,
        ctx,
    );
    locality::lemma_in_turn_kept(
        from,
        (
            walk::step_pair(from, 1, 0, a, ctx),
            walk::step_pair(from, -1, 0, a, ctx),
            walk::step_pair(from, 0, 1, a, ctx),
            walk::step_pair(from, 0, -1, a, ctx),
        ),
        (
            walk::step_pair(from, 1, 0, b, ctx),
            walk::step_pair(from, -1, 0, b, ctx),
            walk::step_pair(from, 0, 1, b, ctx),
            walk::step_pair(from, 0, -1, b, ctx),
        ),
        a,
        b,
        ctx,
    );
    locality::lemma_in_turn_kept(
        from,
        (
            walk::hop(from, 1, 0, a, ctx),
            walk::hop(from, -1, 0, a, ctx),
            walk::hop(from, 0, 1, a, ctx),
            walk::hop(from, 0, -1, a, ctx),
        ),
        (
            walk::hop(from, 1, 0, b, ctx),
            walk::hop(from, -1, 0, b, ctx),
            walk::hop(from, 0, 1, b, ctx),
            walk::hop(from, 0, -1, b, ctx),
        ),
        a,
        b,
        ctx,
    );
    let level = (walk::level_walks(from, a, ctx), walk::level_walks(from, b, ctx));
    let corner = (walk::corner_walks(from, a, ctx), walk::corner_walks(from, b, ctx));
    let step = (walk::step_walks(from, a, ctx), walk::step_walks(from, b, ctx));
    locality::lemma_sum_kept(from, level.0, corner.0, level.1, corner.1, a, b, ctx);
    locality::lemma_sum_kept(from, level.0 + corner.0, step.0, level.1 + corner.1, step.1, a, b, ctx);
    let walks = walk::walk_offers(from, a, ctx);
    assert forall|i: int| 0 <= i < walks.len() && locality::untouched(
        from,
        (#[trigger] walks[i]),
        a,
        b,
        ctx,
    ) implies walk::walk_offers(from, b, ctx).contains(walks[i]) by {
        locality::lemma_ends(from, walks[i], a, b, ctx);
    }
    let jumps = walk::jump_offers(from, a, ctx);
    assert forall|i: int| 0 <= i < jumps.len() && locality::untouched(
        from,
        (#[trigger] jumps[i]),
        a,
        b,
        ctx,
    ) implies walk::jump_offers(from, b, ctx).contains(jumps[i]) by {
        locality::lemma_ends(from, jumps[i], a, b, ctx);
    }
}

proof fn lemma_grab_kept(
    from: BlockPos,
    dx: int,
    dy: int,
    dz: int,
    a: Terrain,
    b: Terrain,
    ctx: &MoveContext,
)
    requires
        a.by_blocks(),
        b.by_blocks(),
        locality::inland(from),
    ensures
        locality::kept(
            from,
            climb::grab(from, dx, dy, dz, a, ctx),
            climb::grab(from, dx, dy, dz, b, ctx),
            a,
            b,
            ctx,
        ),
{
    let before = climb::grab(from, dx, dy, dz, a, ctx);
    let after = climb::grab(from, dx, dy, dz, b, ctx);
    if before.len() == 1 && locality::untouched(from, before[0], a, b, ctx) {
        locality::lemma_ends(from, before[0], a, b, ctx);
        assert(after =~= before);
    }
    locality::lemma_one_kept(from, before, after, a, b, ctx);
}

proof fn lemma_dismount_kept(
    from: BlockPos,
    dx: int,
    dy: int,
    dz: int,
    a: Terrain,
    b: Terrain,
    ctx: &MoveContext,
)
    requires
        a.by_blocks(),
        b.by_blocks(),
        locality::inland(from),
    ensures
        locality::kept(
            from,
            climb::dismount(from, dx, dy, dz, a, ctx),
            climb::dismount(from, dx, dy, dz, b, ctx),
            a,
            b,
            ctx,
        ),
{
    let before = climb::dismount(from, dx, dy, dz, a, ctx);
    let after = climb::dismount(from, dx, dy, dz, b, ctx);
    if before.len() == 1 && locality::untouched(from, before[0], a, b, ctx) {
        locality::lemma_ends(from, before[0], a, b, ctx);
        assert(after =~= before);
    }
    locality::lemma_one_kept(from, before, after, a, b, ctx);
}

proof fn lemma_rung_kept(
    from: BlockPos,
    dy: int,
    a: Terrain,
    b: Terrain,
    ctx: &MoveContext,
)
    requires
        a.by_blocks(),
        b.by_blocks(),
        locality::inland(from),
    ensures
        locality::kept(
            from,
            climb::rung(from, dy, a, ctx),
            climb::rung(from, dy, b, ctx),
            a,
            b,
            ctx,
        ),
{
    let before = climb::rung(from, dy, a, ctx);
    let after = climb::rung(from, dy, b, ctx);
    if before.len() == 1 && locality::untouched(from, before[0], a, b, ctx) {
        locality::lemma_ends(from, before[0], a, b, ctx);
        assert(after =~= before);
    }
    locality::lemma_one_kept(from, before, after, a, b, ctx);
}

proof fn lemma_grab_pair_kept(
    from: BlockPos,
    dx: int,
    dz: int,
    a: Terrain,
    b: Terrain,
    ctx: &MoveContext,
)
    requires
        a.by_blocks(),
        b.by_blocks(),
        locality::inland(from),
    ensures
        locality::kept(
            from,
            climb::grab_pair(from, dx, dz, a, ctx),
            climb::grab_pair(from, dx, dz, b, ctx),
            a,
            b,
            ctx,
        ),
{
    lemma_grab_kept(from, dx, 0, dz, a, b, ctx);
    lemma_grab_kept(from, dx, 1, dz, a, b, ctx);
    locality::lemma_sum_kept(
        from,
        climb::grab(from, dx, 0, dz, a, ctx),
        climb::grab(from, dx, 1, dz, a, ctx),
        climb::grab(from, dx, 0, dz, b, ctx),
        climb::grab(from, dx, 1, dz, b, ctx),
        a,
        b,
        ctx,
    );
}

proof fn lemma_dismount_pair_kept(
    from: BlockPos,
    dx: int,
    dz: int,
    a: Terrain,
    b: Terrain,
    ctx: &MoveContext,
)
    requires
        a.by_blocks(),
        b.by_blocks(),
        locality::inland(from),
    ensures
        locality::kept(
            from,
            climb::dismount_pair(from, dx, dz, a, ctx),
            climb::dismount_pair(from, dx, dz, b, ctx),
            a,
            b,
            ctx,
        ),
{
    lemma_dismount_kept(from, dx, 0, dz, a, b, ctx);
    lemma_dismount_kept(from, dx, 1, dz, a, b, ctx);
    locality::lemma_sum_kept(
        from,
        climb::dismount(from, dx, 0, dz, a, ctx),
        climb::dismount(from, dx, 1, dz, a, ctx),
        climb::dismount(from, dx, 0, dz, b, ctx),
        climb::dismount(from, dx, 1, dz, b, ctx),
        a,
        b,
        ctx,
    );
}

proof fn lemma_climb_kept(from: BlockPos, a: Terrain, b: Terrain, ctx: &MoveContext)
    requires
        a.by_blocks(),
        b.by_blocks(),
        locality::inland(from),
    ensures
        locality::kept(from, climb::climb_offers(from, a, ctx), climb::climb_offers(from, b, ctx), a, b, ctx),
{
    lemma_grab_pair_kept(from, 1, 0, a, b, ctx);
    lemma_grab_pair_kept(from, -1, 0, a, b, ctx);
    lemma_grab_pair_kept(from, 0, 1, a, b, ctx);
    lemma_grab_pair_kept(from, 0, -1, a, b, ctx);
    locality::lemma_in_turn_kept(
        from,
        (
            climb::grab_pair(from, 1, 0, a, ctx),
            climb::grab_pair(from, -1, 0, a, ctx),
            climb::grab_pair(from, 0, 1, a, ctx),
            climb::grab_pair(from, 0, -1, a, ctx),
        ),
        (
            climb::grab_pair(from, 1, 0, b, ctx),
            climb::grab_pair(from, -1, 0, b, ctx),
            climb::grab_pair(from, 0, 1, b, ctx),
            climb::grab_pair(from, 0, -1, b, ctx),
        ),
        a,
        b,
        ctx,
    );
    lemma_dismount_pair_kept(from, 1, 0, a, b, ctx);
    lemma_dismount_pair_kept(from, -1, 0, a, b, ctx);
    lemma_dismount_pair_kept(from, 0, 1, a, b, ctx);
    lemma_dismount_pair_kept(from, 0, -1, a, b, ctx);
    locality::lemma_in_turn_kept(
        from,
        (
            climb::dismount_pair(from, 1, 0, a, ctx),
            climb::dismount_pair(from, -1, 0, a, ctx),
            climb::dismount_pair(from, 0, 1, a, ctx),
            climb::dismount_pair(from, 0, -1, a, ctx),
        ),
        (
            climb::dismount_pair(from, 1, 0, b, ctx),
            climb::dismount_pair(from, -1, 0, b, ctx),
            climb::dismount_pair(from, 0, 1, b, ctx),
            climb::dismount_pair(from, 0, -1, b, ctx),
        ),
        a,
        b,
        ctx,
    );
    lemma_rung_kept(from, 1, a, b, ctx);
    lemma_rung_kept(from, -1, a, b, ctx);
    let up = (climb::rung(from, 1, a, ctx), climb::rung(from, 1, b, ctx));
    let down = (climb::rung(from, -1, a, ctx), climb::rung(from, -1, b, ctx));
    locality::lemma_sum_kept(from, up.0, down.0, up.1, down.1, a, b, ctx);
    locality::lemma_sum_kept(
        from,
        up.0 + down.0,
        offer::in_turn(
            climb::dismount_pair(from, 1, 0, a, ctx),
            climb::dismount_pair(from, -1, 0, a, ctx),
            climb::dismount_pair(from, 0, 1, a, ctx),
            climb::dismount_pair(from, 0, -1, a, ctx),
        ),
        up.1 + down.1,
        offer::in_turn(
            climb::dismount_pair(from, 1, 0, b, ctx),
            climb::dismount_pair(from, -1, 0, b, ctx),
            climb::dismount_pair(from, 0, 1, b, ctx),
            climb::dismount_pair(from, 0, -1, b, ctx),
        ),
        a,
        b,
        ctx,
    );
    let climbs = climb::climb_offers(from, a, ctx);
    assert forall|i: int| 0 <= i < climbs.len() && locality::untouched(
        from,
        (#[trigger] climbs[i]),
        a,
        b,
        ctx,
    ) implies climb::climb_offers(from, b, ctx).contains(climbs[i]) by {
        locality::lemma_ends(from, climbs[i], a, b, ctx);
    }
}

proof fn lemma_wade_kept(
    from: BlockPos,
    dx: int,
    dy: int,
    dz: int,
    a: Terrain,
    b: Terrain,
    ctx: &MoveContext,
)
    requires
        a.by_blocks(),
        b.by_blocks(),
        locality::inland(from),
    ensures
        locality::kept(
            from,
            swim::wade(from, dx, dy, dz, a, ctx),
            swim::wade(from, dx, dy, dz, b, ctx),
            a,
            b,
            ctx,
        ),
{
    let before = swim::wade(from, dx, dy, dz, a, ctx);
    let after = swim::wade(from, dx, dy, dz, b, ctx);
    if before.len() == 1 && locality::untouched(from, before[0], a, b, ctx) {
        locality::lemma_ends(from, before[0], a, b, ctx);
        assert(after =~= before);
    }
    locality::lemma_one_kept(from, before, after, a, b, ctx);
}

proof fn lemma_stroke_kept(
    from: BlockPos,
    dx: int,
    dz: int,
    a: Terrain,
    b: Terrain,
    ctx: &MoveContext,
)
    requires
        a.by_blocks(),
        b.by_blocks(),
        locality::inland(from),
    ensures
        locality::kept(
            from,
            swim::stroke(from, dx, dz, a, ctx),
            swim::stroke(from, dx, dz, b, ctx),
            a,
            b,
            ctx,
        ),
{
    let before = swim::stroke(from, dx, dz, a, ctx);
    let after = swim::stroke(from, dx, dz, b, ctx);
    if before.len() == 1 && locality::untouched(from, before[0], a, b, ctx) {
        locality::lemma_ends(from, before[0], a, b, ctx);
        assert(after =~= before);
    }
    locality::lemma_one_kept(from, before, after, a, b, ctx);
}

proof fn lemma_dive_kept(
    from: BlockPos,
    dy: int,
    a: Terrain,
    b: Terrain,
    ctx: &MoveContext,
)
    requires
        a.by_blocks(),
        b.by_blocks(),
        locality::inland(from),
    ensures
        locality::kept(
            from,
            swim::dive(from, dy, a, ctx),
            swim::dive(from, dy, b, ctx),
            a,
            b,
            ctx,
        ),
{
    let before = swim::dive(from, dy, a, ctx);
    let after = swim::dive(from, dy, b, ctx);
    if before.len() == 1 && locality::untouched(from, before[0], a, b, ctx) {
        locality::lemma_ends(from, before[0], a, b, ctx);
        assert(after =~= before);
    }
    locality::lemma_one_kept(from, before, after, a, b, ctx);
}

proof fn lemma_bank_exit_kept(
    from: BlockPos,
    dx: int,
    dz: int,
    a: Terrain,
    b: Terrain,
    ctx: &MoveContext,
)
    requires
        a.by_blocks(),
        b.by_blocks(),
        locality::inland(from),
    ensures
        locality::kept(
            from,
            swim::bank_exit(from, dx, dz, a, ctx),
            swim::bank_exit(from, dx, dz, b, ctx),
            a,
            b,
            ctx,
        ),
{
    let before = swim::bank_exit(from, dx, dz, a, ctx);
    let after = swim::bank_exit(from, dx, dz, b, ctx);
    if before.len() == 1 && locality::untouched(from, before[0], a, b, ctx) {
        locality::lemma_ends(from, before[0], a, b, ctx);
        assert(after =~= before);
    }
    locality::lemma_one_kept(from, before, after, a, b, ctx);
}

proof fn lemma_wade_pair_kept(
    from: BlockPos,
    dx: int,
    dz: int,
    a: Terrain,
    b: Terrain,
    ctx: &MoveContext,
)
    requires
        a.by_blocks(),
        b.by_blocks(),
        locality::inland(from),
    ensures
        locality::kept(
            from,
            swim::wade_pair(from, dx, dz, a, ctx),
            swim::wade_pair(from, dx, dz, b, ctx),
            a,
            b,
            ctx,
        ),
{
    lemma_wade_kept(from, dx, 0, dz, a, b, ctx);
    lemma_wade_kept(from, dx, -1, dz, a, b, ctx);
    locality::lemma_sum_kept(
        from,
        swim::wade(from, dx, 0, dz, a, ctx),
        swim::wade(from, dx, -1, dz, a, ctx),
        swim::wade(from, dx, 0, dz, b, ctx),
        swim::wade(from, dx, -1, dz, b, ctx),
        a,
        b,
        ctx,
    );
}

proof fn lemma_swim_kept(from: BlockPos, a: Terrain, b: Terrain, ctx: &MoveContext)
    requires
        a.by_blocks(),
        b.by_blocks(),
        locality::inland(from),
    ensures
        locality::kept(from, swim::swim_offers(from, a, ctx), swim::swim_offers(from, b, ctx), a, b, ctx),
{
    lemma_wade_pair_kept(from, 1, 0, a, b, ctx);
    lemma_wade_pair_kept(from, -1, 0, a, b, ctx);
    lemma_wade_pair_kept(from, 0, 1, a, b, ctx);
    lemma_wade_pair_kept(from, 0, -1, a, b, ctx);
    locality::lemma_in_turn_kept(
        from,
        (
            swim::wade_pair(from, 1, 0, a, ctx),
            swim::wade_pair(from, -1, 0, a, ctx),
            swim::wade_pair(from, 0, 1, a, ctx),
            swim::wade_pair(from, 0, -1, a, ctx),
        ),
        (
            swim::wade_pair(from, 1, 0, b, ctx),
            swim::wade_pair(from, -1, 0, b, ctx),
            swim::wade_pair(from, 0, 1, b, ctx),
            swim::wade_pair(from, 0, -1, b, ctx),
        ),
        a,
        b,
        ctx,
    );
    lemma_stroke_kept(from, 1, 0, a, b, ctx);
    lemma_stroke_kept(from, -1, 0, a, b, ctx);
    lemma_stroke_kept(from, 0, 1, a, b, ctx);
    lemma_stroke_kept(from, 0, -1, a, b, ctx);
    locality::lemma_in_turn_kept(
        from,
        (
            swim::stroke(from, 1, 0, a, ctx),
            swim::stroke(from, -1, 0, a, ctx),
            swim::stroke(from, 0, 1, a, ctx),
            swim::stroke(from, 0, -1, a, ctx),
        ),
        (
            swim::stroke(from, 1, 0, b, ctx),
            swim::stroke(from, -1, 0, b, ctx),
            swim::stroke(from, 0, 1, b, ctx),
            swim::stroke(from, 0, -1, b, ctx),
        ),
        a,
        b,
        ctx,
    );
    lemma_bank_exit_kept(from, 1, 0, a, b, ctx);
    lemma_bank_exit_kept(from, -1, 0, a, b, ctx);
    lemma_bank_exit_kept(from, 0, 1, a, b, ctx);
    lemma_bank_exit_kept(from, 0, -1, a, b, ctx);
    locality::lemma_in_turn_kept(
        from,
        (
            swim::bank_exit(from, 1, 0, a, ctx),
            swim::bank_exit(from, -1, 0, a, ctx),
            swim::bank_exit(from, 0, 1, a, ctx),
            swim::bank_exit(from, 0, -1, a, ctx),
        ),
        (
            swim::bank_exit(from, 1, 0, b, ctx),
            swim::bank_exit(from, -1, 0, b, ctx),
            swim::bank_exit(from, 0, 1, b, ctx),
            swim::bank_exit(from, 0, -1, b, ctx),
        ),
        a,
        b,
        ctx,
    );
    lemma_dive_kept(from, 1, a, b, ctx);
    lemma_dive_kept(from, -1, a, b, ctx);
    let up = (swim::dive(from, 1, a, ctx), swim::dive(from, 1, b, ctx));
    let down = (swim::dive(from, -1, a, ctx), swim::dive(from, -1, b, ctx));
    locality::lemma_sum_kept(from, up.0, down.0, up.1, down.1, a, b, ctx);
    let exits = swim::bank_exits(from, a, ctx);
    assert forall|i: int| 0 <= i < exits.len() && locality::untouched(
        from,
        (#[trigger] exits[i]),
        a,
        b,
        ctx,
    ) implies swim::bank_exits(from, b, ctx).contains(exits[i]) by {
        locality::lemma_ends(from, exits[i], a, b, ctx);
    }
    let strokes = (
        offer::in_turn(
            swim::stroke(from, 1, 0, a, ctx),
            swim::stroke(from, -1, 0, a, ctx),
            swim::stroke(from, 0, 1, a, ctx),
            swim::stroke(from, 0, -1, a, ctx),
        ),
        offer::in_turn(
            swim::stroke(from, 1, 0, b, ctx),
            swim::stroke(from, -1, 0, b, ctx),
            swim::stroke(from, 0, 1, b, ctx),
            swim::stroke(from, 0, -1, b, ctx),
        ),
    );
    locality::lemma_sum_kept(from, strokes.0, up.0 + down.0, strokes.1, up.1 + down.1, a, b, ctx);
    locality::lemma_sum_kept(
        from,
        strokes.0 + (up.0 + down.0),
        exits,
        strokes.1 + (up.1 + down.1),
        swim::bank_exits(from, b, ctx),
        a,
        b,
        ctx,
    );
    let swims = swim::swim_offers(from, a, ctx);
    assert forall|i: int| 0 <= i < swims.len() && locality::untouched(
        from,
        (#[trigger] swims[i]),
        a,
        b,
        ctx,
    ) implies swim::swim_offers(from, b, ctx).contains(swims[i]) by {
        locality::lemma_ends(from, swims[i], a, b, ctx);
    }
}

/// The column of a fall is part of its footprint.
proof fn lemma_descent(
    from: BlockPos,
    edge: Edge,
    a: Terrain,
    b: Terrain,
    ctx: &MoveContext,
    y: i32,
)
    requires
        a.by_blocks(),
        b.by_blocks(),
        locality::untouched(from, edge, a, b, ctx),
        edge.kind is Fall,
        edge.to.y <= y <= from.y,
    ensures
        locality::same_body(a, b, footprint::column(edge.to, y)),
{
    reveal(locality::untouched);
    let needs = footprint::dependencies(
        from,
        edge.to,
        edge.kind,
        footprint::options_of(ctx).in_range(),
    );
    let at = footprint::column(edge.to, y);
    assert forall|cell: BlockPos| #[trigger] cells::body_cells(at).contains(cell) implies a.kind(
        cell,
    ) == b.kind(cell) by {
        assert(footprint::descent_cells(from, edge.to).contains(cell));
        assert(needs.contains(cell));
    }
    locality::lemma_same_body(a, b, at);
}

proof fn lemma_landing_kept(
    from: BlockPos,
    dx: int,
    dz: int,
    drop: int,
    limit: int,
    a: Terrain,
    b: Terrain,
    ctx: &MoveContext,
)
    requires
        a.by_blocks(),
        b.by_blocks(),
        locality::inland(from),
        -1 <= dx <= 1,
        -1 <= dz <= 1,
        1 <= drop,
        limit <= 127,
    ensures
        ({
            let step = world::shift(from, dx, 0, dz);
            let before = fall::landing_below(step, drop, limit, a, ctx);
            &&& before.len() <= 1
            &&& before.len() == 1 ==> {
                &&& before[0].kind is Fall
                &&& before[0].to.x == step.x
                &&& before[0].to.z == step.z
                &&& before[0].to.y <= step.y - drop
                &&& locality::untouched(from, before[0], a, b, ctx) ==> fall::landing_below(
                    step,
                    drop,
                    limit,
                    b,
                    ctx,
                ) == before
            }
        }),
    decreases limit + 1 - drop,
{
    let step = world::shift(from, dx, 0, dz);
    let feet = world::shift(step, 0, -drop, 0);
    let before = fall::landing_below(step, drop, limit, a, ctx);
    if drop <= limit {
        lemma_landing_kept(from, dx, dz, drop + 1, limit, a, b, ctx);
        if before.len() == 1 && locality::untouched(from, before[0], a, b, ctx) {
            lemma_descent(from, before[0], a, b, ctx, feet.y);
            assert(footprint::column(before[0].to, feet.y) == feet);
        }
    }
}

proof fn lemma_side_fall_kept(
    from: BlockPos,
    dx: int,
    dz: int,
    a: Terrain,
    b: Terrain,
    ctx: &MoveContext,
)
    requires
        a.by_blocks(),
        b.by_blocks(),
        locality::inland(from),
        -1 <= dx <= 1,
        -1 <= dz <= 1,
    ensures
        locality::kept(
            from,
            fall::side_fall(from, dx, dz, a, ctx),
            fall::side_fall(from, dx, dz, b, ctx),
            a,
            b,
            ctx,
        ),
{
    let step = world::shift(from, dx, 0, dz);
    let before = fall::side_fall(from, dx, dz, a, ctx);
    lemma_landing_kept(from, dx, dz, 1, moves::drop_limit(ctx.max_fall), a, b, ctx);
    if before.len() == 1 && locality::untouched(from, before[0], a, b, ctx) {
        lemma_descent(from, before[0], a, b, ctx, from.y);
        assert(footprint::column(before[0].to, from.y) == step);
    }
    locality::lemma_one_kept(from, before, fall::side_fall(from, dx, dz, b, ctx), a, b, ctx);
}

proof fn lemma_fall_kept(from: BlockPos, a: Terrain, b: Terrain, ctx: &MoveContext)
    requires
        a.by_blocks(),
        b.by_blocks(),
        locality::inland(from),
    ensures
        locality::kept(from, fall::fall_offers(from, a, ctx), fall::fall_offers(from, b, ctx), a, b, ctx),
{
    lemma_side_fall_kept(from, 1, 0, a, b, ctx);
    lemma_side_fall_kept(from, -1, 0, a, b, ctx);
    lemma_side_fall_kept(from, 0, 1, a, b, ctx);
    lemma_side_fall_kept(from, 0, -1, a, b, ctx);
    locality::lemma_in_turn_kept(
        from,
        (
            fall::side_fall(from, 1, 0, a, ctx),
            fall::side_fall(from, -1, 0, a, ctx),
            fall::side_fall(from, 0, 1, a, ctx),
            fall::side_fall(from, 0, -1, a, ctx),
        ),
        (
            fall::side_fall(from, 1, 0, b, ctx),
            fall::side_fall(from, -1, 0, b, ctx),
            fall::side_fall(from, 0, 1, b, ctx),
            fall::side_fall(from, 0, -1, b, ctx),
        ),
        a,
        b,
        ctx,
    );
}

/// The box between takeoff and landing is part of a jump's footprint.
proof fn lemma_prism(
    from: BlockPos,
    edge: Edge,
    a: Terrain,
    b: Terrain,
    ctx: &MoveContext,
    cell: BlockPos,
)
    requires
        locality::untouched(from, edge, a, b, ctx),
        edge.kind is Parkour,
        footprint::prism_cells(from, edge.to).contains(cell),
    ensures
        a.kind(cell) == b.kind(cell),
{
    reveal(locality::untouched);
    let needs = footprint::dependencies(
        from,
        edge.to,
        edge.kind,
        footprint::options_of(ctx).in_range(),
    );
    assert(needs.contains(cell));
}

/// Bodies between takeoff and landing are the same in both worlds.
proof fn lemma_prism_body(
    from: BlockPos,
    edge: Edge,
    a: Terrain,
    b: Terrain,
    ctx: &MoveContext,
    at: BlockPos,
)
    requires
        a.by_blocks(),
        b.by_blocks(),
        locality::inland(from),
        locality::untouched(from, edge, a, b, ctx),
        edge.kind is Parkour,
        footprint::prism_cells(from, edge.to).contains(world::shift(at, 0, -1, 0)),
        footprint::prism_cells(from, edge.to).contains(world::shift(at, 0, 2, 0)),
        from.y - 200 <= at.y <= from.y + 200,
    ensures
        locality::same_body(a, b, at),
{
    lemma_prism(from, edge, a, b, ctx, world::shift(at, 0, -1, 0));
    lemma_prism(from, edge, a, b, ctx, at);
    lemma_prism(from, edge, a, b, ctx, world::shift(at, 0, 1, 0));
    lemma_prism(from, edge, a, b, ctx, world::shift(at, 0, 2, 0));
    assert(a.stands(at) == world::stands_by_blocks(a.kinds, at));
    assert(b.stands(at) == world::stands_by_blocks(b.kinds, at));
}

/// A place to run up from is the same in both worlds when a footprint covers
/// it.
proof fn lemma_footing_kept(
    from: BlockPos,
    a: Terrain,
    b: Terrain,
    needs: Set<BlockPos>,
    bx: int,
    bz: int,
)
    requires
        a.by_blocks(),
        b.by_blocks(),
        locality::agree(a, b, needs),
        footprint::approach_cells(from, bx, bz).subset_of(needs),
    ensures
        parkour::footing(a, from, bx, bz) == parkour::footing(b, from, bx, bz),
{
    if bx != 0 || bz != 0 {
        let near = footprint::approach_cells(from, bx, bz);
        let low = world::shift(from, bx, -1, bz);
        let level = world::shift(from, bx, 0, bz);
        let high = world::shift(from, bx, 1, bz);
        assert forall|cell: BlockPos| #[trigger]
            cells::body_cells(low).contains(cell) implies a.kind(cell) == b.kind(cell) by {
            assert(near.contains(cell));
        }
        assert forall|cell: BlockPos| #[trigger]
            cells::body_cells(level).contains(cell) implies a.kind(cell) == b.kind(cell) by {
            assert(near.contains(cell));
        }
        assert forall|cell: BlockPos| #[trigger]
            cells::body_cells(high).contains(cell) implies a.kind(cell) == b.kind(cell) by {
            assert(near.contains(cell));
        }
        locality::lemma_same_body(a, b, low);
        locality::lemma_same_body(a, b, level);
        locality::lemma_same_body(a, b, high);
    }
}

/// The places to run up from are part of a jump's footprint.
proof fn lemma_run_up_kept(
    from: BlockPos,
    edge: Edge,
    a: Terrain,
    b: Terrain,
    ctx: &MoveContext,
    ox: int,
    oz: int,
    back: int,
)
    requires
        a.by_blocks(),
        b.by_blocks(),
        locality::untouched(from, edge, a, b, ctx),
        edge.kind is Parkour,
        edge.to.x - from.x == ox,
        edge.to.z - from.z == oz,
        back == 1 || back == 2,
    ensures
        parkour::run_up(a, from, ox, oz, back) == parkour::run_up(b, from, ox, oz, back),
{
    reveal(locality::untouched);
    let needs = footprint::dependencies(
        from,
        edge.to,
        edge.kind,
        footprint::options_of(ctx).in_range(),
    );
    let bx = -(parkour::sign(ox) * back);
    let bz = -(parkour::sign(oz) * back);
    let places = footprint::run_up_cells(from, edge.to, back);
    assert(bx == -footprint::sign(ox) * back && bz == -footprint::sign(oz) * back)
        by (nonlinear_arith)
        requires
            bx == -(parkour::sign(ox) * back),
            bz == -(parkour::sign(oz) * back),
            parkour::sign(ox) == footprint::sign(ox),
            parkour::sign(oz) == footprint::sign(oz),
    ;
    assert(places.subset_of(needs));
    assert(footprint::approach_cells(from, bx, bz).subset_of(places));
    assert(footprint::approach_cells(from, bx, 0).subset_of(places));
    assert(footprint::approach_cells(from, 0, bz).subset_of(places));
    lemma_footing_kept(from, a, b, needs, bx, bz);
    lemma_footing_kept(from, a, b, needs, bx, 0);
    lemma_footing_kept(from, a, b, needs, 0, bz);
}

/// A rounded part of an offset lies between zero and the offset.
proof fn lemma_rounded_between(offset: int, sample: int, samples: int)
    requires
        0 < sample < samples,
    ensures
        offset >= 0 ==> 0 <= parkour::rounded(offset * sample, samples) <= offset,
        offset <= 0 ==> offset <= parkour::rounded(offset * sample, samples) <= 0,
{
    let n = offset * sample;
    if offset >= 0 {
        assert(n >= 0 && n <= offset * samples) by (nonlinear_arith)
            requires
                n == offset * sample,
                offset >= 0,
                0 < sample < samples,
        ;
        assert(0 <= (2 * n + samples) / (2 * samples) <= offset) by (nonlinear_arith)
            requires
                0 <= n <= offset * samples,
                samples > 0,
        ;
    }
    if offset < 0 {
        assert(n < 0 && -n <= -offset * samples) by (nonlinear_arith)
            requires
                n == offset * sample,
                offset < 0,
                0 < sample < samples,
        ;
        assert(0 <= (samples - 2 * n) / (2 * samples) <= -offset) by (nonlinear_arith)
            requires
                0 <= -n <= -offset * samples,
                samples > 0,
        ;
    }
}

/// The columns that a jump flies over lie in its box.
proof fn lemma_flown_over(from: BlockPos, ox: int, oz: int, sample: int)
    requires
        locality::inland(from),
        -4 <= ox <= 4,
        -4 <= oz <= 4,
        1 <= sample < parkour::flight_samples(parkour::reach_squared(ox, oz)),
    ensures
        ({
            let mid = parkour::flown_over(from, ox, oz, sample);
            &&& arith::min_int(from.x as int, from.x + ox) <= mid.x <= arith::max_int(
                from.x as int,
                from.x + ox,
            )
            &&& arith::min_int(from.z as int, from.z + oz) <= mid.z <= arith::max_int(
                from.z as int,
                from.z + oz,
            )
            &&& mid.y == from.y
        }),
{
    let samples = parkour::flight_samples(parkour::reach_squared(ox, oz));
    lemma_rounded_between(ox, sample, samples);
    lemma_rounded_between(oz, sample, samples);
}

proof fn lemma_crossable_kept(
    from: BlockPos,
    edge: Edge,
    a: Terrain,
    b: Terrain,
    ctx: &MoveContext,
    mid: BlockPos,
    rise: int,
)
    requires
        a.by_blocks(),
        b.by_blocks(),
        locality::inland(from),
        locality::untouched(from, edge, a, b, ctx),
        edge.kind is Parkour,
        rise == 0 || rise == 1,
        edge.to.y == from.y + rise,
        mid.y == from.y,
        footprint::prism_cells(from, edge.to).contains(mid),
        parkour::crossable(a, mid, 2 + rise),
    ensures
        parkour::crossable(b, mid, 2 + rise),
{
    lemma_prism_body(from, edge, a, b, ctx, mid);
    assert forall|dy: int| 0 <= dy <= 2 + rise implies b.free(
        #[trigger] world::shift(mid, 0, dy, 0),
    ) by {
        assert(a.free(world::shift(mid, 0, dy, 0)));
        lemma_prism(from, edge, a, b, ctx, world::shift(mid, 0, dy, 0));
    }
}

proof fn lemma_rising_jump_kept(
    from: BlockPos,
    ox: int,
    oz: int,
    rise: int,
    a: Terrain,
    b: Terrain,
    ctx: &MoveContext,
)
    requires
        a.by_blocks(),
        b.by_blocks(),
        locality::inland(from),
        -4 <= ox <= 4,
        -4 <= oz <= 4,
        rise == 0 || rise == 1,
    ensures
        locality::kept(
            from,
            parkour::rising_jump(from, ox, oz, rise, a, ctx),
            parkour::rising_jump(from, ox, oz, rise, b, ctx),
            a,
            b,
            ctx,
        ),
{
    let before = parkour::rising_jump(from, ox, oz, rise, a, ctx);
    let after = parkour::rising_jump(from, ox, oz, rise, b, ctx);
    if before.len() == 1 && locality::untouched(from, before[0], a, b, ctx) {
        let edge = before[0];
        locality::lemma_ends(from, edge, a, b, ctx);
        lemma_run_up_kept(from, edge, a, b, ctx, ox, oz, 1);
        lemma_run_up_kept(from, edge, a, b, ctx, ox, oz, 2);
        if rise > 0 {
            lemma_prism(from, edge, a, b, ctx, world::shift(from, 0, 2 + rise, 0));
        }
        assert forall|sample: int|
            1 <= sample < parkour::flight_samples(parkour::reach_squared(ox, oz)) implies ({
            let mid = #[trigger] parkour::flown_over(from, ox, oz, sample);
            mid == from || mid == world::shift(from, ox, 0, oz) || parkour::crossable(
                b,
                mid,
                2 + rise,
            )
        }) by {
            let mid = parkour::flown_over(from, ox, oz, sample);
            lemma_flown_over(from, ox, oz, sample);
            if mid != from && mid != world::shift(from, ox, 0, oz) {
                lemma_crossable_kept(from, edge, a, b, ctx, mid, rise);
            }
        }
        assert(after =~= before);
    }
    locality::lemma_one_kept(from, before, after, a, b, ctx);
}

proof fn lemma_droppable_kept(
    from: BlockPos,
    edge: Edge,
    a: Terrain,
    b: Terrain,
    ctx: &MoveContext,
    mid: BlockPos,
    drop: int,
)
    requires
        a.by_blocks(),
        b.by_blocks(),
        locality::inland(from),
        locality::untouched(from, edge, a, b, ctx),
        edge.kind is Parkour,
        1 <= drop <= 127,
        edge.to.y == from.y - drop,
        mid.y == from.y,
        footprint::prism_cells(from, edge.to).contains(mid),
        parkour::droppable(a, mid, drop),
    ensures
        parkour::droppable(b, mid, drop),
{
    assert forall|dy: int| -drop <= dy <= 2 implies b.free(
        #[trigger] world::shift(mid, 0, dy, 0),
    ) by {
        assert(a.free(world::shift(mid, 0, dy, 0)));
        lemma_prism(from, edge, a, b, ctx, world::shift(mid, 0, dy, 0));
    }
    assert forall|dy: int| -drop <= dy <= 0 implies !b.stands(
        #[trigger] world::shift(mid, 0, dy, 0),
    ) by {
        assert(!a.stands(world::shift(mid, 0, dy, 0)));
        lemma_prism_body(from, edge, a, b, ctx, world::shift(mid, 0, dy, 0));
    }
}

proof fn lemma_falling_jump_kept(
    from: BlockPos,
    ox: int,
    oz: int,
    drop: int,
    limit: int,
    a: Terrain,
    b: Terrain,
    ctx: &MoveContext,
)
    requires
        a.by_blocks(),
        b.by_blocks(),
        locality::inland(from),
        -4 <= ox <= 4,
        -4 <= oz <= 4,
        1 <= drop,
        limit <= 127,
    ensures
        ({
            let before = parkour::falling_jump(from, ox, oz, drop, limit, a, ctx);
            &&& before.len() <= 1
            &&& before.len() == 1 ==> {
                &&& before[0].kind is Parkour
                &&& before[0].to.x == from.x + ox
                &&& before[0].to.z == from.z + oz
                &&& before[0].to.y <= from.y - drop
                &&& locality::untouched(from, before[0], a, b, ctx) ==> parkour::falling_jump(
                    from,
                    ox,
                    oz,
                    drop,
                    limit,
                    b,
                    ctx,
                ) == before
            }
        }),
    decreases limit + 1 - drop,
{
    let to = world::shift(from, ox, -drop, oz);
    let before = parkour::falling_jump(from, ox, oz, drop, limit, a, ctx);
    if drop <= limit {
        lemma_falling_jump_kept(from, ox, oz, drop + 1, limit, a, b, ctx);
        if before.len() == 1 && locality::untouched(from, before[0], a, b, ctx) {
            let edge = before[0];
            lemma_prism_body(from, edge, a, b, ctx, to);
            if a.dry_stands(to) {
                lemma_run_up_kept(from, edge, a, b, ctx, ox, oz, 1);
                assert forall|sample: int|
                    1 <= sample < parkour::flight_samples(
                        parkour::reach_squared(ox, oz),
                    ) implies ({
                    let mid = #[trigger] parkour::flown_over(from, ox, oz, sample);
                    mid == from || mid == world::shift(from, ox, 0, oz) || parkour::droppable(
                        b,
                        mid,
                        drop,
                    )
                }) by {
                    let mid = parkour::flown_over(from, ox, oz, sample);
                    lemma_flown_over(from, ox, oz, sample);
                    if mid != from && mid != world::shift(from, ox, 0, oz) {
                        lemma_droppable_kept(from, edge, a, b, ctx, mid, drop);
                    }
                }
            }
        }
    }
}

proof fn lemma_jumps_kept(from: BlockPos, n: nat, a: Terrain, b: Terrain, ctx: &MoveContext)
    requires
        a.by_blocks(),
        b.by_blocks(),
        locality::inland(from),
        n <= parkour::LANDINGS,
    ensures
        locality::kept(
            from,
            parkour::jumps_among(from, n, a, ctx),
            parkour::jumps_among(from, n, b, ctx),
            a,
            b,
            ctx,
        ),
    decreases n,
{
    if n > 0 {
        let k = n - 1;
        let (ox, oz) = parkour::landing(k);
        parkour::lemma_landing(k);
        let limit = moves::drop_limit(ctx.max_fall);
        lemma_jumps_kept(from, k as nat, a, b, ctx);
        lemma_rising_jump_kept(from, ox, oz, 0, a, b, ctx);
        lemma_rising_jump_kept(from, ox, oz, 1, a, b, ctx);
        lemma_falling_jump_kept(from, ox, oz, 1, limit, a, b, ctx);
        let level = (
            parkour::rising_jump(from, ox, oz, 0, a, ctx),
            parkour::rising_jump(from, ox, oz, 0, b, ctx),
        );
        let up = (
            parkour::rising_jump(from, ox, oz, 1, a, ctx),
            parkour::rising_jump(from, ox, oz, 1, b, ctx),
        );
        let down = (
            parkour::falling_jump(from, ox, oz, 1, limit, a, ctx),
            parkour::falling_jump(from, ox, oz, 1, limit, b, ctx),
        );
        locality::lemma_one_kept(from, down.0, down.1, a, b, ctx);
        locality::lemma_sum_kept(from, level.0, up.0, level.1, up.1, a, b, ctx);
        locality::lemma_sum_kept(from, level.0 + up.0, down.0, level.1 + up.1, down.1, a, b, ctx);
        locality::lemma_sum_kept(
            from,
            parkour::jumps_among(from, k as nat, a, ctx),
            parkour::jumps_towards(from, ox, oz, a, ctx),
            parkour::jumps_among(from, k as nat, b, ctx),
            parkour::jumps_towards(from, ox, oz, b, ctx),
            a,
            b,
            ctx,
        );
    }
}

proof fn lemma_parkour_kept(from: BlockPos, a: Terrain, b: Terrain, ctx: &MoveContext)
    requires
        a.by_blocks(),
        b.by_blocks(),
        locality::inland(from),
    ensures
        locality::kept(
            from,
            parkour::parkour_offers(from, a, ctx),
            parkour::parkour_offers(from, b, ctx),
            a,
            b,
            ctx,
        ),
{
    lemma_jumps_kept(from, parkour::LANDINGS as nat, a, b, ctx);
    let jumps = parkour::parkour_offers(from, a, ctx);
    assert forall|i: int| 0 <= i < jumps.len() && locality::untouched(
        from,
        (#[trigger] jumps[i]),
        a,
        b,
        ctx,
    ) implies parkour::parkour_offers(from, b, ctx).contains(jumps[i]) by {
        locality::lemma_ends(from, jumps[i], a, b, ctx);
    }
}

pub(crate) proof fn lemma_rules_keep(
    movement: BuiltinMove,
    from: BlockPos,
    a: Terrain,
    b: Terrain,
    ctx: &MoveContext,
)
    requires
        a.by_blocks(),
        b.by_blocks(),
        locality::inland(from),
    ensures
        locality::kept(from, movement.offers(from, a, ctx), movement.offers(from, b, ctx), a, b, ctx),
{
    lemma_walk_kept(from, a, b, ctx);
    lemma_climb_kept(from, a, b, ctx);
    lemma_parkour_kept(from, a, b, ctx);
    lemma_swim_kept(from, a, b, ctx);
    lemma_fall_kept(from, a, b, ctx);
}

} // verus!
