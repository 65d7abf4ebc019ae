//! Who has to respect a reservation, for how long, and which reservations give
//! way to others.
use vstd::prelude::*;

use crate::arith;
use crate::local::world::WorldView;
use crate::pos::BlockPos;
use crate::resilience::overlay;
use crate::resilience::overlay::{
    AppliedOverlay, DeadlockPolicy, DynamicObstacleOverlay, ObstacleEntry, ObstacleKind,
    ObstacleOwner, ObstaclePriority, OverlayInsert,
};
use crate::types::Cost;

verus! {

/// A hard reservation stops everyone who has to yield to its owner, while it is
/// young: those with higher numbers, and those without one. Whoever has the
/// right of way, and everyone once it is old, pays the toll for yielding
/// instead. A soft one costs everyone its own penalty. Nobody is in their own
/// way.
pub proof fn reservations_bind_those_who_yield(
    entry: ObstacleEntry,
    policy: DeadlockPolicy,
    viewer: Option<ObstacleOwner>,
    now_tick: u64,
)
    ensures
        ({
            let seen = entry.effect(policy, viewer, now_tick);
            let young = now_tick < entry.created_at_tick + policy.max_hard_ticks && now_tick
                < entry.expires_at_tick;
            let yields = viewer matches Some(v) ==> v.0 > entry.owner.0;
            let own = viewer == Some(entry.owner);
            &&& seen is None <==> own
            &&& seen == Some(ObstacleKind::Hard) <==> entry.kind is Hard && young && yields
            &&& entry.kind is Hard && !own && !(young && yields) ==> seen == Some(
                ObstacleKind::Soft { penalty: policy.yielded_soft_penalty },
            )
            &&& entry.kind is Soft && !own ==> seen == Some(entry.kind)
        }),
{
}

/// A reservation lasts until the tick it expires at, and no longer.
pub proof fn reservations_expire(
    entries: Map<BlockPos, ObstacleEntry>,
    now_tick: u64,
    at: BlockPos,
)
    ensures
        overlay::active_entries(entries, now_tick).contains_key(at) <==> entries.contains_key(at)
            && now_tick < entries[at].expires_at_tick,
        overlay::active_entries(entries, now_tick).contains_key(at)
            ==> overlay::active_entries(entries, now_tick)[at] == entries[at],
{
}

/// The clock of an overlay moves its generation exactly when it expires a
/// reservation or lets a hard one grow old.
pub proof fn generations_count_changes(
    before: DynamicObstacleOverlay,
    after: DynamicObstacleOverlay,
    now_tick: u64,
)
    requires
        before.advanced(after, now_tick),
    ensures
        after.clock() == now_tick,
        forall|at: BlockPos| #[trigger]
            after.obstacles().contains_key(at) ==> before.obstacles().contains_key(at)
                && after.obstacles()[at] == before.obstacles()[at] && now_tick
                < before.obstacles()[at].expires_at_tick,
        forall|at: BlockPos| #[trigger]
            before.obstacles().contains_key(at) && now_tick
                < before.obstacles()[at].expires_at_tick ==> after.obstacles().contains_key(at),
        (exists|at: BlockPos| #[trigger]
            before.obstacles().contains_key(at) && now_tick
                >= before.obstacles()[at].expires_at_tick) ==> after.generation()
            == before.generation() + 1,
        (exists|at: BlockPos| #[trigger]
            before.obstacles().contains_key(at) && before.obstacles()[at].kind is Hard
                && before.clock() < before.obstacles()[at].created_at_tick
                + before.policy().max_hard_ticks <= now_tick && before.clock()
                < before.obstacles()[at].expires_at_tick && before.obstacles()[at].created_at_tick
                + before.policy().max_hard_ticks <= u64::MAX) ==> after.generation()
            == before.generation() + 1,
        (forall|at: BlockPos| #[trigger]
            before.obstacles().contains_key(at) ==> now_tick
                < before.obstacles()[at].expires_at_tick && (before.obstacles()[at].kind is Soft
                || now_tick < before.obstacles()[at].created_at_tick
                + before.policy().max_hard_ticks)) ==> after.generation() == before.generation(),
{
    if exists|at: BlockPos| #[trigger]
        before.obstacles().contains_key(at) && now_tick
            >= before.obstacles()[at].expires_at_tick {
        let at = choose|at: BlockPos| #[trigger]
            before.obstacles().contains_key(at) && now_tick
                >= before.obstacles()[at].expires_at_tick;
        assert(before.stirs(now_tick)) by {
            assert(before.obstacles().contains_key(at));
        }
    }
    if exists|at: BlockPos| #[trigger]
        before.obstacles().contains_key(at) && before.obstacles()[at].kind is Hard && before.clock()
            < before.obstacles()[at].created_at_tick + before.policy().max_hard_ticks <= now_tick
            && before.clock() < before.obstacles()[at].expires_at_tick
            && before.obstacles()[at].created_at_tick + before.policy().max_hard_ticks
            <= u64::MAX {
        let at = choose|at: BlockPos| #[trigger]
            before.obstacles().contains_key(at) && before.obstacles()[at].kind is Hard
                && before.clock() < before.obstacles()[at].created_at_tick
                + before.policy().max_hard_ticks <= now_tick && before.clock()
                < before.obstacles()[at].expires_at_tick && before.obstacles()[at].created_at_tick
                + before.policy().max_hard_ticks <= u64::MAX;
        let entry = before.obstacles()[at];
        assert(entry.crosses(before.policy(), before.clock(), now_tick));
        assert(before.stirs(now_tick)) by {
            assert(before.obstacles().contains_key(at));
        }
    }
}

/// Obstacles only add to what is charged for a place: a hard one charges the
/// most there is, a soft one its penalty on top of what was there, and a place
/// without one keeps its charge.
pub proof fn obstacles_only_add_charges(
    base: Map<BlockPos, Cost>,
    entries: Map<BlockPos, ObstacleEntry>,
    policy: DeadlockPolicy,
    viewer: Option<ObstacleOwner>,
    now_tick: u64,
    at: BlockPos,
)
    ensures
        ({
            let charged = overlay::tolled(base, entries, policy, viewer, now_tick);
            let seen = if entries.contains_key(at) {
                entries[at].effect(policy, viewer, now_tick)
            } else {
                None
            };
            let was = if base.contains_key(at) {
                base[at] as int
            } else {
                0
            };
            &&& charged.contains_key(at) <==> base.contains_key(at) || seen is Some
            &&& seen is None && base.contains_key(at) ==> charged[at] == base[at]
            &&& seen == Some(ObstacleKind::Hard) ==> charged[at] == u32::MAX
            &&& seen matches Some(ObstacleKind::Soft { penalty }) ==> charged[at] == arith::min_int(
                was + penalty,
                u32::MAX as int,
            )
        }),
{
}

/// A new reservation is refused where a more important one stands, where an
/// equal one of somebody else does, and where it would soften a hard one. Its
/// owner may renew it, and a more important one may take its place.
pub proof fn standing_reservations_are_respected(
    active: Map<BlockPos, ObstacleEntry>,
    generation: int,
    limit: usize,
    at: BlockPos,
    owner: ObstacleOwner,
    kind: ObstacleKind,
    priority: ObstaclePriority,
)
    requires
        active.contains_key(at),
        generation < u64::MAX,
    ensures
        ({
            let standing = active[at];
            let refused = overlay::refusal(active, generation, limit, at, owner, kind, priority);
            let outranked = priority.0 < standing.priority.0;
            let peer = priority.0 == standing.priority.0 && owner != standing.owner;
            let softens = standing.kind is Hard && kind is Soft;
            &&& refused is None <==> !outranked && !peer && !softens
            &&& outranked ==> refused == Some(OverlayInsert::RejectedLowerPriority)
            &&& peer ==> refused == Some(OverlayInsert::RejectedOwnedByPeer)
            &&& !outranked && !peer && softens ==> refused == Some(
                OverlayInsert::RejectedHardDowngrade,
            )
        }),
{
}

/// A place without a reservation takes one, unless the overlay is full and
/// everything in it is more important.
pub proof fn free_places_are_reserved(
    active: Map<BlockPos, ObstacleEntry>,
    generation: int,
    limit: usize,
    at: BlockPos,
    owner: ObstacleOwner,
    kind: ObstacleKind,
    priority: ObstaclePriority,
)
    requires
        !active.contains_key(at),
        generation < u64::MAX,
    ensures
        active.dom().len() < limit ==> overlay::refusal(
            active,
            generation,
            limit,
            at,
            owner,
            kind,
            priority,
        ) is None,
        overlay::refusal(active, generation, limit, at, owner, kind, priority) matches Some(reason)
            ==> reason == OverlayInsert::RejectedCapacity && forall|other: BlockPos| #[trigger]
            active.contains_key(other) ==> priority.0 < active[other].priority.0,
        (exists|other: BlockPos| #[trigger]
            active.contains_key(other) && active[other].priority.0 <= priority.0)
            ==> overlay::refusal(active, generation, limit, at, owner, kind, priority) is None,
{
    if overlay::refusal(active, generation, limit, at, owner, kind, priority) is Some {
        let least = choose|least: BlockPos| #[trigger]
            overlay::is_least(active, least) && priority.0 < active[least].priority.0;
        assert(overlay::is_least(active, least));
    }
}

/// An accepted reservation stands where it was made. Everything else stays,
/// but for one that makes room in a full overlay: the least important, and the
/// oldest of those.
pub proof fn accepted_reservations_stand(
    active: Map<BlockPos, ObstacleEntry>,
    limit: usize,
    at: BlockPos,
    entry: ObstacleEntry,
    outcome: OverlayInsert,
    after: Map<BlockPos, ObstacleEntry>,
    other: BlockPos,
)
    requires
        overlay::accepted(active, limit, at, entry, outcome, after),
    ensures
        after.contains_key(at) && after[at] == entry,
        other != at && after.contains_key(other) ==> active.contains_key(other) && after[other]
            == active[other],
        other != at && active.contains_key(other) && !after.contains_key(other) ==> {
            &&& outcome matches OverlayInsert::Inserted { evicted: Some(gone) } && gone.pos == other
                && gone.owner == active[other].owner
            &&& !active.contains_key(at) && active.dom().len() == limit
            &&& forall|kept: BlockPos| #[trigger]
                active.contains_key(kept) ==> active[other].priority.0 <= active[kept].priority.0
        },
        outcome is Replaced <==> active.contains_key(at),
{
}

/// A hard reservation keeps every body out: nobody stands in it, with the head
/// in or just under it, or on top of it. Elsewhere the world is as it was.
pub proof fn hard_reservations_keep_bodies_out<W: WorldView + ?Sized>(
    view: &AppliedOverlay<W>,
    at: BlockPos,
    body: BlockPos,
)
    requires
        body.x == at.x && body.z == at.z,
        i32::MIN < body.y < i32::MAX - 1,
    ensures
        view.hard_at(at) ==> view.terrain().kind(at) is Fence,
        view.hard_at(at) && at.y - 2 <= body.y <= at.y + 1 ==> !view.terrain().stands(body),
        !view.hard_at(at) ==> view.terrain().kind(at) == view.ground().kind(at),
        view.terrain().stands(body) ==> view.ground().stands(body),
        (forall|dy: int|
            -1 <= dy <= 2 ==> !(#[trigger] view.hard_at(
                BlockPos { y: (body.y + dy) as i32, ..body },
            ))) ==> view.terrain().stands(body) == view.ground().stands(body),
{
    let below = BlockPos { y: (body.y + (-1)) as i32, ..body };
    let level = BlockPos { y: (body.y + 0) as i32, ..body };
    let head = BlockPos { y: (body.y + 1) as i32, ..body };
    let over = BlockPos { y: (body.y + 2) as i32, ..body };
    assert(crate::local::world::shift(body, 0, -1, 0) == below);
    assert(crate::local::world::shift(body, 0, 1, 0) == head);
    assert(crate::local::world::shift(body, 0, 2, 0) == over);
    assert(level == body);
}

/// What has to leave a full overlay is of the least priority there is, and of
/// those the one that has been there longest.
pub proof fn evictions_take_the_oldest_of_the_least(
    active: Map<BlockPos, ObstacleEntry>,
    limit: usize,
    at: BlockPos,
    entry: ObstacleEntry,
    outcome: OverlayInsert,
    after: Map<BlockPos, ObstacleEntry>,
    other: BlockPos,
)
    requires
        overlay::accepted(active, limit, at, entry, outcome, after),
        active.contains_key(other),
    ensures
        outcome matches OverlayInsert::Inserted { evicted: Some(victim) } ==> {
            &&& active.contains_key(victim.pos)
            &&& victim.owner == active[victim.pos].owner
            &&& active[victim.pos].priority.0 <= active[other].priority.0
            &&& active[victim.pos].priority.0 == active[other].priority.0
                ==> active[victim.pos].sequence <= active[other].sequence
            &&& !after.contains_key(victim.pos)
            &&& other != victim.pos ==> after.contains_key(other) && after[other] == active[other]
            &&& after[at] == entry
        },
        !(outcome matches OverlayInsert::Inserted { evicted: Some(victim) }) ==> (other != at
            ==> after.contains_key(other) && after[other] == active[other]) && after[at] == entry,
{
}

/// Time changes the generation of an overlay exactly where it changes what an
/// onlooker without a number would see: where an obstacle expires, or a hard one
/// becomes soft.
pub proof fn time_stirs_what_it_changes(
    before: DynamicObstacleOverlay,
    after: DynamicObstacleOverlay,
    now_tick: u64,
)
    requires
        before.advanced(after, now_tick),
        before.clock() <= now_tick,
    ensures
        after.generation() == before.generation() <==> forall|at: BlockPos|
            (#[trigger] before.obstacles().contains_key(at)) ==> {
                let entry = before.obstacles()[at];
                &&& now_tick < entry.expires_at_tick
                &&& entry.effect(before.policy(), None, now_tick) == entry.effect(
                    before.policy(),
                    None,
                    before.clock(),
                )
            },
        after.generation() == before.generation() || after.generation() == before.generation() + 1,
{
    assert forall|at: BlockPos| #[trigger] before.obstacles().contains_key(at) implies ({
        let entry = before.obstacles()[at];
        (!entry.active_at(now_tick) || entry.crosses(before.policy(), before.clock(), now_tick))
            <==> !(now_tick < entry.expires_at_tick && entry.effect(before.policy(), None, now_tick)
            == entry.effect(before.policy(), None, before.clock()))
    }) by {
        let entry = before.obstacles()[at];
        let hard = entry.hard_until(before.policy());
    }
    if before.stirs(now_tick) {
        let at = choose|at: BlockPos| #[trigger]
            before.obstacles().contains_key(at) && (!before.obstacles()[at].active_at(now_tick)
                || before.obstacles()[at].crosses(before.policy(), before.clock(), now_tick));
        assert(before.obstacles().contains_key(at));
    }
}

} // verus!
