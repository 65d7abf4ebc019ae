//! What holds of every tick of a follower: when it walks, jumps, sprints and
//! waits, where it steers, and when it gives up.
use vstd::prelude::*;

use crate::arith;
use crate::local::follower;
use crate::local::follower::{
    Aim, FollowerDirective, FollowerFailure, FollowerFrame, FollowerProgress, PathFollower,
};
use crate::local::line;
use crate::local::rng;
use crate::local::settings::FollowerSettings;
use crate::local::world::Terrain;
use crate::pos::BlockPos;
use crate::types::{MoveKind, Path};

verus! {

/// The node whose direction or height an aim goes by.
pub open spec fn aimed_at(aim: Aim) -> int {
    match aim {
        Aim::Node(node) => node as int,
        Aim::OwnBlock { height_of } => height_of as int,
        Aim::Wall { height_of, .. } => height_of as int,
        Aim::Retreat { from, .. } => from as int,
    }
}

/// Whether a directive walks on along the path, rather than backing out.
pub open spec fn walks(directive: FollowerDirective) -> bool {
    match directive {
        FollowerDirective::Move { aim, .. } => !(aim is Retreat),
        FollowerDirective::Wait { .. } => true,
        _ => false,
    }
}

/// A tick that walks is a tick of a body on its way: there is a node to
/// approach, nothing pauses the body, its time is not up, it has neither
/// arrived nor fallen off, and it is not backing out of a pinch.
pub proof fn walking_bodies_are_on_their_way(
    start: PathFollower,
    terrain: Terrain,
    frame: &FollowerFrame,
    after: PathFollower,
    directive: FollowerDirective,
)
    requires
        start.wf(),
        start.ticked(terrain, frame, after, directive),
        walks(directive),
    ensures
        after.path == start.path,
        after.settings == start.settings,
        start.path.nodes@.len() >= 2,
        start.idx <= after.idx < start.path.nodes@.len(),
        !frame.paused,
        !frame.arrived,
        start.total_ticks < start.settings.max_follow_ticks || start.total_ticks == 0
            || start.total_ticks == u32::MAX,
        frame.on_ground ==> start.path.nodes@[after.idx as int].pos.y < frame.fallen_from,
        start.escaping == 0,
        after.failure == start.failure,
        after.idx <= start.last_progress_idx ==> start.stalled < start.settings.stall_ticks
            || start.stalled == 0 || start.stalled == u32::MAX,
{
    lemma_ahead(start, frame);
}

/// A body that is on its way walks: nothing else stops a tick.
pub proof fn bodies_on_their_way_walk(
    start: PathFollower,
    terrain: Terrain,
    frame: &FollowerFrame,
    after: PathFollower,
    directive: FollowerDirective,
)
    requires
        start.wf(),
        start.ticked(terrain, frame, after, directive),
        start.path.nodes@.len() >= 2,
        !frame.paused,
        !frame.arrived,
        start.total_ticks < start.settings.max_follow_ticks,
        frame.on_ground ==> start.path.nodes@[after.idx as int].pos.y < frame.fallen_from,
        line::way_is_safe(
            terrain,
            frame.feet,
            start.path.nodes@[after.idx as int].pos,
            start.settings.lava_policy,
            frame.way@,
        ),
        start.escaping == 0,
        after.idx > start.last_progress_idx || start.stalled < start.settings.stall_ticks
            || start.stalled == 0,
    ensures
        walks(directive),
{
    lemma_ahead(start, frame);
}

/// A walking body on the ground jumps at the takeoff edge of a leap, and for
/// one more of three reasons: it approaches a hop within range that rises, it
/// runs into something while the node rises, or it is shoved loose after the
/// ticks it drew for that. In water it jumps to keep up with the node it steers
/// at, and on a ladder to climb to it. It never jumps for anything else.
pub proof fn walking_bodies_jump_where_they_must(
    start: PathFollower,
    terrain: Terrain,
    frame: &FollowerFrame,
    after: PathFollower,
    aim: Aim,
    sprint: bool,
    jump: bool,
    wander: bool,
    turn: bool,
)
    requires
        start.wf(),
        start.ticked(
            terrain,
            frame,
            after,
            FollowerDirective::Move { aim, sprint, jump, wander, turn },
        ),
        !(aim is Retreat),
    ensures
        ({
            let nodes = start.path.nodes@;
            let node = nodes[after.idx as int];
            let feet = terrain.kind(frame.feet);
            let past_edge = if aim is OwnBlock {
                frame.past_edge_squared_up
            } else {
                frame.past_edge
            };
            let rises = node.pos.y >= frame.stepping_from;
            let shoved = after.stalled == start.escape_hop_a || after.stalled
                == start.escape_hop_b;
            let swims_up = feet is Water && nodes[aimed_at(aim)].pos.y >= frame.feet.y;
            let climbs_up = feet is Climbable && nodes[aimed_at(aim)].pos.y >= frame.rising_from;
            &&& node.reached_by is Parkour && frame.on_ground && past_edge ==> jump
            &&& node.reached_by is Jump && frame.in_step_range && rises && frame.on_ground ==> jump
            &&& frame.horizontal_collision && rises && frame.on_ground ==> jump
            &&& frame.horizontal_collision && shoved && frame.on_ground ==> jump
            &&& swims_up ==> jump
            &&& climbs_up ==> jump
            &&& jump ==> {
                ||| swims_up
                ||| climbs_up
                ||| frame.on_ground && node.reached_by is Parkour && past_edge
                ||| frame.on_ground && node.reached_by is Jump && frame.in_step_range && rises
                ||| frame.on_ground && frame.horizontal_collision && (rises || shoved)
            }
        }),
        wander,
        turn <==> !(jump && frame.on_ground),
{
    lemma_ahead(start, frame);
}

/// A body never sprints on a ladder or in water. Towards the landing of a leap
/// it sprints exactly on the ground and for three blocks or more. Elsewhere it
/// sprints on the ground only, outside of a break, unless it draws one.
pub proof fn walking_bodies_sprint_where_they_may(
    start: PathFollower,
    terrain: Terrain,
    frame: &FollowerFrame,
    after: PathFollower,
    aim: Aim,
    sprint: bool,
    jump: bool,
    wander: bool,
    turn: bool,
)
    requires
        start.wf(),
        start.ticked(
            terrain,
            frame,
            after,
            FollowerDirective::Move { aim, sprint, jump, wander, turn },
        ),
        !(aim is Retreat),
    ensures
        ({
            let node = start.path.nodes@[after.idx as int];
            let feet = terrain.kind(frame.feet);
            let held = feet is Water || feet is Climbable;
            let odds = if start.settings.sprint_break_chance_denominator == 0 {
                1
            } else {
                start.settings.sprint_break_chance_denominator
            };
            let tired = rng::scrambled(start.rng.0) % odds == 0;
            &&& held ==> !sprint && after.sprint_pause == start.sprint_pause
            &&& !frame.on_ground ==> !sprint
            &&& !held && node.reached_by is Parkour ==> (sprint <==> node.reached_by->blocks >= 3
                && frame.on_ground) && after.sprint_pause == start.sprint_pause
            &&& !held && !(node.reached_by is Parkour) && start.sprint_pause > 0 ==> !sprint
                && after.sprint_pause == start.sprint_pause - 1 && after.rng == start.rng
            &&& !held && !(node.reached_by is Parkour) && start.sprint_pause == 0
                && frame.on_ground ==> (sprint <==> !tired)
            &&& !held && !(node.reached_by is Parkour) && start.sprint_pause == 0
                && frame.on_ground && tired ==> arith::min_int(
                start.settings.sprint_break_min_ticks as int,
                start.settings.sprint_break_max_ticks as int,
            ) <= after.sprint_pause <= arith::max_int(
                start.settings.sprint_break_min_ticks as int,
                start.settings.sprint_break_max_ticks as int,
            )
            &&& sprint ==> after.sprint_pause == start.sprint_pause
        }),
{
    lemma_ahead(start, frame);
}

/// A body holds on and waits exactly on a ladder, above the node it steers at.
pub proof fn bodies_wait_to_slide_down_ladders(
    start: PathFollower,
    terrain: Terrain,
    frame: &FollowerFrame,
    after: PathFollower,
    directive: FollowerDirective,
    aim: Aim,
)
    requires
        start.wf(),
        start.ticked(terrain, frame, after, directive),
        walks(directive),
        directive matches FollowerDirective::Move { aim: steered, .. } ==> steered == aim,
        directive matches FollowerDirective::Wait { aim: steered } ==> steered == aim,
    ensures
        directive is Wait <==> (terrain.kind(frame.feet) is Climbable
            && start.path.nodes@[aimed_at(aim)].pos.y <= frame.sinking_to),
        directive is Wait ==> after.sprint_pause == start.sprint_pause && after.rng == start.rng,
{
    lemma_ahead(start, frame);
}

/// Whether `wall` stands beside `feet`.
pub open spec fn beside(feet: BlockPos, wall: BlockPos) -> bool {
    wall.y == feet.y && arith::abs_int(wall.x - feet.x) + arith::abs_int(wall.z - feet.z) == 1
}

/// A walking body steers at the node it approaches or one after it, no further
/// than it may skip, and at that node itself where it leaps, climbs, or stands
/// on or approaches a partial block. Wedged off the centre of its block it
/// lines up there first. Up a ladder it presses against the wall behind it.
pub proof fn walking_bodies_steer_along_the_path(
    start: PathFollower,
    terrain: Terrain,
    frame: &FollowerFrame,
    after: PathFollower,
    directive: FollowerDirective,
    aim: Aim,
)
    requires
        start.wf(),
        start.ticked(terrain, frame, after, directive),
        walks(directive),
        directive matches FollowerDirective::Move { aim: steered, .. } ==> steered == aim,
        directive matches FollowerDirective::Wait { aim: steered } ==> steered == aim,
        i32::MIN < frame.feet.x < i32::MAX,
        i32::MIN < frame.feet.z < i32::MAX,
    ensures
        ({
            let nodes = start.path.nodes@;
            let node = nodes[after.idx as int];
            let feet = frame.feet;
            let wedged = frame.horizontal_collision && after.stalled >= 5 && frame.off_centre;
            let climbs = directive is Move && terrain.kind(feet) is Climbable
                && nodes[aimed_at(aim)].pos.y >= frame.rising_from;
            &&& after.idx <= aimed_at(aim) < nodes.len()
            &&& aimed_at(aim) <= after.idx + start.settings.max_los_skip
            &&& node.reached_by is Parkour || node.reached_by is Climb || terrain.kind(feet) is Step
                || terrain.kind(node.pos) is Step ==> aimed_at(aim) == after.idx
            &&& aim is OwnBlock ==> wedged
            &&& wedged && !(aim is OwnBlock) ==> aim is Wall
            &&& aim matches Aim::Wall { wall, .. } ==> climbs && beside(feet, wall)
                && terrain.kind(wall) is Solid
            &&& climbs && (exists|wall: BlockPos|
                #[trigger] beside(feet, wall) && terrain.kind(wall) is Solid) ==> aim is Wall
        }),
{
    lemma_ahead(start, frame);
    let feet = frame.feet;
    assert forall|wall: BlockPos| #[trigger] beside(feet, wall) && terrain.kind(wall) is Solid
        && terrain.kind(feet) is Climbable implies line::fixing(terrain, feet) is Some by {
        if wall.x == feet.x + 1 {
            assert(wall == crate::local::world::shift(feet, 1, 0, 0));
        } else if wall.x == feet.x - 1 {
            assert(wall == crate::local::world::shift(feet, -1, 0, 0));
        } else if wall.z == feet.z + 1 {
            assert(wall == crate::local::world::shift(feet, 0, 0, 1));
        } else {
            assert(wall == crate::local::world::shift(feet, 0, 0, -1));
        }
    }
}

/// A follower leaves behind exactly the flagged nodes in front of it: it stops
/// at the first that is not flagged, and at the last node of its path.
pub proof fn flagged_nodes_are_left_behind(
    start: PathFollower,
    terrain: Terrain,
    frame: &FollowerFrame,
    after: PathFollower,
    directive: FollowerDirective,
)
    requires
        start.wf(),
        start.ticked(terrain, frame, after, directive),
        start.path.nodes@.len() >= 2,
        !frame.paused,
        start.total_ticks < start.settings.max_follow_ticks,
    ensures
        start.idx <= after.idx < start.path.nodes@.len(),
        after.idx == start.idx || after.idx - start.idx <= frame.left_behind@.len(),
        forall|i: int| 0 <= i < after.idx - start.idx ==> #[trigger] frame.left_behind@[i],
        after.idx + 1 == start.path.nodes@.len() || after.idx - start.idx
            >= frame.left_behind@.len() || !frame.left_behind@[after.idx - start.idx],
        after.idx != start.idx ==> after.progress == (FollowerProgress::Advanced {
            from: start.idx,
            to: after.idx,
        }),
        after.idx == start.idx ==> after.progress == start.progress,
{
    lemma_ahead(start, frame);
}

proof fn lemma_reached(count: int, left_behind: Seq<bool>, start: int, at: int)
    requires
        start <= at < count,
    ensures
        ({
            let to = follower::reached(count, left_behind, start, at);
            &&& at <= to < count
            &&& to == at || to - start <= left_behind.len()
            &&& forall|i: int| at - start <= i < to - start ==> #[trigger] left_behind[i]
            &&& to + 1 == count || to - start >= left_behind.len() || !left_behind[to - start]
        }),
    decreases count - at,
{
    if at + 1 < count && at - start < left_behind.len() && left_behind[at - start] {
        lemma_reached(count, left_behind, start, at + 1);
        let to = follower::reached(count, left_behind, start, at);
        assert(to == follower::reached(count, left_behind, start, at + 1));
        assert forall|i: int| at - start <= i < to - start implies #[trigger] left_behind[i] by {
            if i > at - start {
                assert(at + 1 - start <= i);
            }
        }
    }
}

proof fn lemma_ahead(start: PathFollower, frame: &FollowerFrame)
    requires
        start.wf(),
    ensures
        start.path.nodes@.len() >= 2 ==> {
            let to = start.approached(frame);
            &&& start.idx <= to < start.path.nodes@.len()
            &&& to as usize == to
            &&& to == start.idx || to - start.idx <= frame.left_behind@.len()
            &&& forall|i: int| 0 <= i < to - start.idx ==> #[trigger] frame.left_behind@[i]
            &&& to + 1 == start.path.nodes@.len() || to - start.idx >= frame.left_behind@.len()
                || !frame.left_behind@[to - start.idx]
        },
{
    if start.path.nodes@.len() >= 2 {
        assert(start.path.nodes.len() == start.path.nodes@.len());
        lemma_reached(
            start.path.nodes@.len() as int,
            frame.left_behind@,
            start.idx as int,
            start.idx as int,
        );
    }
}

/// A follower with no node to approach has arrived, and so has one whose body
/// is close enough to the last node. Nothing else is an arrival.
pub proof fn followers_arrive_at_their_last_node(
    start: PathFollower,
    terrain: Terrain,
    frame: &FollowerFrame,
    after: PathFollower,
    directive: FollowerDirective,
)
    requires
        start.wf(),
        start.ticked(terrain, frame, after, directive),
    ensures
        directive is Arrived <==> {
            ||| start.path.nodes@.len() < 2
            ||| !frame.paused && frame.arrived && (start.total_ticks
                < start.settings.max_follow_ticks || start.total_ticks == 0 || (start.total_ticks
                == u32::MAX && start.settings.max_follow_ticks == u32::MAX))
        },
        directive is Arrived ==> after.failure == start.failure,
        directive is Paused <==> start.path.nodes@.len() >= 2 && frame.paused,
{
    lemma_ahead(start, frame);
}

/// A follower gives up for one of three reasons, which it notes: its time is
/// up; it stands on the ground too far below the node it approaches; or it made
/// no progress for as long as it may stall and has backed out twice already.
pub proof fn followers_give_up_for_a_reason(
    start: PathFollower,
    terrain: Terrain,
    frame: &FollowerFrame,
    after: PathFollower,
    directive: FollowerDirective,
)
    requires
        start.wf(),
        start.ticked(terrain, frame, after, directive),
    ensures
        directive matches FollowerDirective::Stuck { at } ==> {
            &&& at == frame.feet
            &&& start.path.nodes@.len() >= 2 && !frame.paused
            &&& after.failure is Some
            &&& after.failure == Some(FollowerFailure::TimedOut) ==> start.total_ticks
                >= start.settings.max_follow_ticks
            &&& after.failure == Some(FollowerFailure::FellOff) ==> !frame.arrived
                && frame.on_ground && start.path.nodes@[after.idx as int].pos.y
                >= frame.fallen_from
            &&& after.failure == Some(FollowerFailure::Stalled) ==> {
                &&& after.idx <= start.last_progress_idx
                &&& start.stalled >= start.settings.stall_ticks
                &&& start.stalled >= 1
                &&& start.escapes_used >= 2
                &&& start.escaping == 0
            }
        },
        start.path.nodes@.len() >= 2 && !frame.paused && start.total_ticks
            >= start.settings.max_follow_ticks && start.total_ticks >= 1 && start.total_ticks
            < u32::MAX ==> directive is Stuck && after.failure == Some(FollowerFailure::TimedOut)
            && after.idx == start.idx,
{
    lemma_ahead(start, frame);
}

/// A body on the ground too far below its node has fallen off its path.
pub proof fn fallen_bodies_give_up(
    start: PathFollower,
    terrain: Terrain,
    frame: &FollowerFrame,
    after: PathFollower,
    directive: FollowerDirective,
)
    requires
        start.wf(),
        start.ticked(terrain, frame, after, directive),
        start.path.nodes@.len() >= 2,
        !frame.paused,
        !frame.arrived,
        start.total_ticks < start.settings.max_follow_ticks,
        frame.on_ground,
        start.path.nodes@[after.idx as int].pos.y >= frame.fallen_from,
    ensures
        directive == (FollowerDirective::Stuck { at: frame.feet }),
        after.failure == Some(FollowerFailure::FellOff),
{
    lemma_ahead(start, frame);
}

/// A follower refuses its way exactly where the lava policy does now, before
/// it gives any thought to how to walk it.
pub proof fn unsafe_ways_are_refused(
    start: PathFollower,
    terrain: Terrain,
    frame: &FollowerFrame,
    after: PathFollower,
    directive: FollowerDirective,
)
    requires
        start.wf(),
        start.ticked(terrain, frame, after, directive),
        start.path.nodes@.len() >= 2,
        !frame.paused,
        !frame.arrived,
        start.total_ticks < start.settings.max_follow_ticks,
        frame.on_ground ==> start.path.nodes@[after.idx as int].pos.y < frame.fallen_from,
    ensures
        directive is Unsafe <==> !line::way_is_safe(
            terrain,
            frame.feet,
            start.path.nodes@[after.idx as int].pos,
            start.settings.lava_policy,
            frame.way@,
        ),
        directive matches FollowerDirective::Unsafe { at, next } ==> at == frame.feet && next
            == start.path.nodes@[after.idx as int].pos,
{
    lemma_ahead(start, frame);
}

/// A stalled body backs out: for eighteen ticks it steers away from its node,
/// without sprinting, first to one side and then, the second time, to the
/// other. While it does it hops on the ground every sixth tick, and keeps
/// afloat and on its ladder.
pub proof fn stalled_bodies_back_out(
    start: PathFollower,
    terrain: Terrain,
    frame: &FollowerFrame,
    after: PathFollower,
    directive: FollowerDirective,
)
    requires
        start.wf(),
        start.ticked(terrain, frame, after, directive),
        start.path.nodes@.len() >= 2,
        !frame.paused,
        !frame.arrived,
        start.total_ticks < start.settings.max_follow_ticks,
        frame.on_ground ==> start.path.nodes@[after.idx as int].pos.y < frame.fallen_from,
        line::way_is_safe(
            terrain,
            frame.feet,
            start.path.nodes@[after.idx as int].pos,
            start.settings.lava_policy,
            frame.way@,
        ),
    ensures
        start.escaping == 0 && after.idx <= start.last_progress_idx && start.stalled
            >= start.settings.stall_ticks && start.stalled >= 1 && start.stalled < u32::MAX
            && start.escapes_used < 2 ==> {
            &&& directive matches FollowerDirective::Move {
                aim: Aim::Retreat { flipped, .. },
                sprint: false,
                jump: false,
                ..
            } && flipped == (start.escapes_used == 1)
            &&& after.escaping == 18
            &&& after.escapes_used == start.escapes_used + 1
            &&& after.stalled == 0
        },
        start.escaping > 0 ==> {
            &&& directive matches FollowerDirective::Move {
                aim: Aim::Retreat { from, flipped },
                sprint: false,
                jump,
                ..
            } && flipped == (start.escapes_used >= 2) && {
                let nodes = start.path.nodes@;
                let feet = terrain.kind(frame.feet);
                jump <==> {
                    ||| feet is Water && nodes[from as int].pos.y >= frame.feet.y
                    ||| feet is Climbable && nodes[from as int].pos.y >= frame.rising_from
                    ||| frame.on_ground && after.escaping % 6 == 0
                }
            }
            &&& after.escaping == start.escaping - 1
            &&& after.stalled == start.stalled
            &&& after.escapes_used == start.escapes_used
        },
{
    lemma_ahead(start, frame);
}

/// A body that backed out twice without progress and stalls again gives up.
pub proof fn bodies_back_out_only_twice(
    start: PathFollower,
    terrain: Terrain,
    frame: &FollowerFrame,
    after: PathFollower,
    directive: FollowerDirective,
)
    requires
        start.wf(),
        start.ticked(terrain, frame, after, directive),
        start.path.nodes@.len() >= 2,
        !frame.paused,
        !frame.arrived,
        start.total_ticks < start.settings.max_follow_ticks,
        frame.on_ground ==> start.path.nodes@[after.idx as int].pos.y < frame.fallen_from,
        line::way_is_safe(
            terrain,
            frame.feet,
            start.path.nodes@[after.idx as int].pos,
            start.settings.lava_policy,
            frame.way@,
        ),
        start.escaping == 0,
        after.idx <= start.last_progress_idx,
        start.stalled >= start.settings.stall_ticks,
        1 <= start.stalled < u32::MAX,
        start.escapes_used >= 2,
    ensures
        directive == (FollowerDirective::Stuck { at: frame.feet }),
        after.failure == Some(FollowerFailure::Stalled),
{
    lemma_ahead(start, frame);
}

/// Walking ticks keep count: a tick that gets further than ever before clears
/// the stall and the escapes, and any other one adds to the stall. Every tick
/// that is not paused uses up time.
pub proof fn ticks_keep_count(
    start: PathFollower,
    terrain: Terrain,
    frame: &FollowerFrame,
    after: PathFollower,
    directive: FollowerDirective,
)
    requires
        start.wf(),
        start.ticked(terrain, frame, after, directive),
        start.path.nodes@.len() >= 2,
    ensures
        !frame.paused && start.total_ticks < u32::MAX ==> after.total_ticks == start.total_ticks
            + 1,
        frame.paused ==> after.total_ticks == start.total_ticks && after.idx == start.idx
            && after.stalled == 0,
        walks(directive) && after.idx > start.last_progress_idx ==> after.stalled == 0
            && after.escapes_used == 0 && after.last_progress_idx == after.idx,
        walks(directive) && after.idx <= start.last_progress_idx && start.stalled < u32::MAX
            ==> after.stalled == start.stalled + 1 && after.escapes_used == start.escapes_used
            && after.last_progress_idx == start.last_progress_idx,
        after.path == start.path,
        after.settings == start.settings,
{
    lemma_ahead(start, frame);
}

/// A new follower approaches the second node of its path, has spent nothing,
/// and draws its habits within their configured ranges.
pub proof fn new_followers_start_afresh(path: Path, settings: FollowerSettings, seed: u64)
    ensures
        ({
            let fresh = follower::begun(path, settings, seed);
            &&& fresh.path == path
            &&& fresh.settings == settings
            &&& path.nodes@.len() >= 2 ==> fresh.idx == 1
            &&& fresh.last_progress_idx == fresh.idx
            &&& fresh.stalled == 0 && fresh.escaping == 0 && fresh.escapes_used == 0
            &&& fresh.total_ticks == 0 && fresh.sprint_pause == 0
            &&& fresh.failure is None
            &&& fresh.progress is Unchanged
            &&& fresh.yaw_phase < 628 && fresh.pitch_phase < 628
            &&& fresh.turn_jitter < settings.turn_jitter_degrees || fresh.turn_jitter == 0
            &&& arith::min_int(
                settings.escape_hop_first_min_ticks as int,
                settings.escape_hop_first_max_ticks as int,
            ) <= fresh.escape_hop_a <= arith::max_int(
                settings.escape_hop_first_min_ticks as int,
                settings.escape_hop_first_max_ticks as int,
            )
            &&& arith::min_int(
                settings.escape_hop_second_min_ticks as int,
                settings.escape_hop_second_max_ticks as int,
            ) <= fresh.escape_hop_b <= arith::max_int(
                settings.escape_hop_second_min_ticks as int,
                settings.escape_hop_second_max_ticks as int,
            )
        }),
{
}

} // verus!
