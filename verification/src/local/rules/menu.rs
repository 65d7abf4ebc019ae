//! How many transitions the built-in rules offer.
use vstd::prelude::*;

use crate::local::moves;
use crate::local::moves::{Move, MoveContext};
use crate::local::rules::builtin::BuiltinMove;
use crate::local::rules::climb;
use crate::local::rules::fall;
use crate::local::rules::parkour;
use crate::local::rules::swim;
use crate::local::rules::walk;
use crate::local::world;
use crate::local::world::Terrain;
use crate::pos::BlockPos;

verus! {

/// The most transitions that a built-in rule offers from one position: two
/// rising jumps and a falling one towards each landing offset.
pub const LONGEST_MENU: usize = 120;

proof fn lemma_one_landing(
    step: BlockPos,
    drop: int,
    limit: int,
    terrain: Terrain,
    ctx: &MoveContext,
)
    ensures
        fall::landing_below(step, drop, limit, terrain, ctx).len() <= 1,
    decreases limit + 1 - drop,
{
    if drop <= limit {
        lemma_one_landing(step, drop + 1, limit, terrain, ctx);
    }
}

proof fn lemma_one_falling_jump(
    from: BlockPos,
    ox: int,
    oz: int,
    drop: int,
    limit: int,
    terrain: Terrain,
    ctx: &MoveContext,
)
    ensures
        parkour::falling_jump(from, ox, oz, drop, limit, terrain, ctx).len() <= 1,
    decreases limit + 1 - drop,
{
    if drop <= limit {
        lemma_one_falling_jump(from, ox, oz, drop + 1, limit, terrain, ctx);
    }
}

proof fn lemma_jumps(from: BlockPos, n: nat, terrain: Terrain, ctx: &MoveContext)
    ensures
        parkour::jumps_among(from, n, terrain, ctx).len() <= 3 * n,
    decreases n,
{
    if n > 0 {
        let k = n - 1;
        lemma_jumps(from, k as nat, terrain, ctx);
        lemma_one_falling_jump(
            from,
            parkour::landing(k).0,
            parkour::landing(k).1,
            1,
            moves::drop_limit(ctx.max_fall),
            terrain,
            ctx,
        );
    }
}

proof fn lemma_walks(from: BlockPos, terrain: Terrain, ctx: &MoveContext)
    ensures
        walk::walk_offers(from, terrain, ctx).len() <= 16,
{
    assert(walk::level_walks(from, terrain, ctx).len() <= 4);
    assert(walk::corner_walks(from, terrain, ctx).len() <= 4);
    assert(walk::step_pair(from, 1, 0, terrain, ctx).len() <= 2);
    assert(walk::step_pair(from, -1, 0, terrain, ctx).len() <= 2);
    assert(walk::step_pair(from, 0, 1, terrain, ctx).len() <= 2);
    assert(walk::step_pair(from, 0, -1, terrain, ctx).len() <= 2);
    assert(walk::step_walks(from, terrain, ctx).len() <= 8);
}

proof fn lemma_climbs(from: BlockPos, terrain: Terrain, ctx: &MoveContext)
    ensures
        climb::climb_offers(from, terrain, ctx).len() <= 10,
{
    assert(climb::grab_pair(from, 1, 0, terrain, ctx).len() <= 2);
    assert(climb::grab_pair(from, -1, 0, terrain, ctx).len() <= 2);
    assert(climb::grab_pair(from, 0, 1, terrain, ctx).len() <= 2);
    assert(climb::grab_pair(from, 0, -1, terrain, ctx).len() <= 2);
    assert(climb::dismount_pair(from, 1, 0, terrain, ctx).len() <= 2);
    assert(climb::dismount_pair(from, -1, 0, terrain, ctx).len() <= 2);
    assert(climb::dismount_pair(from, 0, 1, terrain, ctx).len() <= 2);
    assert(climb::dismount_pair(from, 0, -1, terrain, ctx).len() <= 2);
    assert(climb::rung(from, 1, terrain, ctx).len() <= 1);
    assert(climb::rung(from, -1, terrain, ctx).len() <= 1);
}

proof fn lemma_swims(from: BlockPos, terrain: Terrain, ctx: &MoveContext)
    ensures
        swim::swim_offers(from, terrain, ctx).len() <= 10,
{
    assert(swim::wade_pair(from, 1, 0, terrain, ctx).len() <= 2);
    assert(swim::wade_pair(from, -1, 0, terrain, ctx).len() <= 2);
    assert(swim::wade_pair(from, 0, 1, terrain, ctx).len() <= 2);
    assert(swim::wade_pair(from, 0, -1, terrain, ctx).len() <= 2);
    assert(swim::stroke(from, 1, 0, terrain, ctx).len() <= 1);
    assert(swim::stroke(from, -1, 0, terrain, ctx).len() <= 1);
    assert(swim::stroke(from, 0, 1, terrain, ctx).len() <= 1);
    assert(swim::stroke(from, 0, -1, terrain, ctx).len() <= 1);
    assert(swim::dive(from, 1, terrain, ctx).len() <= 1);
    assert(swim::dive(from, -1, terrain, ctx).len() <= 1);
    assert(swim::bank_exits(from, terrain, ctx).len() <= 4);
}

proof fn lemma_falls(from: BlockPos, terrain: Terrain, ctx: &MoveContext)
    ensures
        fall::fall_offers(from, terrain, ctx).len() <= 4,
{
    let limit = moves::drop_limit(ctx.max_fall);
    lemma_one_landing(world::shift(from, 1, 0, 0), 1, limit, terrain, ctx);
    lemma_one_landing(world::shift(from, -1, 0, 0), 1, limit, terrain, ctx);
    lemma_one_landing(world::shift(from, 0, 0, 1), 1, limit, terrain, ctx);
    lemma_one_landing(world::shift(from, 0, 0, -1), 1, limit, terrain, ctx);
}

/// The standard moves offer few transitions from any position, whatever the
/// terrain and the settings are.
pub proof fn standard_menus_are_short(
    movement: BuiltinMove,
    from: BlockPos,
    terrain: Terrain,
    ctx: &MoveContext,
)
    ensures
        movement.offers(from, terrain, ctx).len() <= LONGEST_MENU,
{
    match movement {
        BuiltinMove::Walk(_) => {
            lemma_walks(from, terrain, ctx);
        },
        BuiltinMove::Climb(_) => {
            lemma_climbs(from, terrain, ctx);
        },
        BuiltinMove::Parkour(_) => {
            lemma_jumps(from, parkour::LANDINGS as nat, terrain, ctx);
        },
        BuiltinMove::Swim(_) => {
            lemma_swims(from, terrain, ctx);
        },
        BuiltinMove::Fall(_) => {
            lemma_falls(from, terrain, ctx);
        },
        BuiltinMove::Jump(_) | BuiltinMove::Aotv(_) | BuiltinMove::Etherwarp(_) => {},
    }
}

} // verus!
