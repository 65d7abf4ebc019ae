//! Tick-driven path execution independent of client state.
//!
//! The executor measures distances and headings; everything that is decided
//! from those measurements, the world and the path is decided here.
use vstd::prelude::*;

use crate::arith;
use crate::local::line;
use crate::local::line::{furthest_visible, ladder_wall, live_next_node_is_safe, LineSample};
use crate::local::rng;
use crate::local::rng::{random_tick, Rng};
use crate::local::settings::FollowerSettings;
use crate::local::world::{BlockKind, Terrain, WorldView};
use crate::pos::BlockPos;
use crate::types::{MoveKind, Path, PathNode};

verus! {

/// How long to spend backing out of a pinch before retrying the path.
pub const ESCAPE_TICKS: u32 = 18;

/// How many times to back out before giving up and asking for a fresh plan.
/// Alternating sides means two attempts already cover both ways round.
pub const MAX_ESCAPES: u32 = 2;

/// Ticks of being blocked and making no progress before squaring up on the
/// current block. Long enough that ordinary wall-sliding never triggers it.
pub const WEDGE_TICKS: u32 = 5;

/// What the executor measured in one tick.
#[derive(Clone, Debug)]
pub struct FollowerFrame {
    /// The block the feet are in.
    pub feet: BlockPos,
    pub on_ground: bool,
    pub horizontal_collision: bool,
    /// Stops movement without consuming the stall budget.
    pub paused: bool,
    /// For the current node and those after it: whether the body is close to
    /// it, or past it on the way to the next.
    pub left_behind: Vec<bool>,
    /// Whether the body is close enough to the last node.
    pub arrived: bool,
    /// Node heights from this one on are so far above the body that it must
    /// have fallen off the path.
    pub fallen_from: i64,
    /// Node heights from this one on are above the body.
    pub rising_from: i64,
    /// Node heights up to this one are below the body.
    pub sinking_to: i64,
    /// Node heights from this one on take a hop to reach.
    pub stepping_from: i64,
    /// The blocks on the straight way to the node being approached.
    pub way: Vec<BlockPos>,
    /// The walks to the nodes after the one being approached.
    pub lines: Vec<Vec<LineSample>>,
    /// Whether the node being approached is near enough to hop onto.
    pub in_step_range: bool,
    /// Whether the body is past the takeoff edge, steering at the node.
    pub past_edge: bool,
    /// Whether the body is past the takeoff edge, steering at its own block.
    pub past_edge_squared_up: bool,
    /// Whether the body is off the centre of its block.
    pub off_centre: bool,
}

/// Where to steer.
#[derive(Clone, Copy, PartialEq, Eq, Structural, Debug)]
pub enum Aim {
    /// The centre of a node.
    Node(usize),
    /// The centre of the block the body is in, at the height of a node.
    OwnBlock { height_of: usize },
    /// The block a ladder hangs on, at the height of a node.
    Wall { wall: BlockPos, height_of: usize },
    /// Back from a node and out to one side; `flipped` picks the other side.
    Retreat { from: usize, flipped: bool },
}

#[derive(Clone, Copy, PartialEq, Eq, Structural, Debug)]
pub enum FollowerDirective {
    Paused,
    Move {
        aim: Aim,
        sprint: bool,
        jump: bool,
        /// Whether the heading wanders a little.
        wander: bool,
        /// Whether the heading may turn this tick.
        turn: bool,
    },
    Arrived,
    Stuck { at: BlockPos },
    /// Hold position without walking, but keep looking where the path goes.
    ///
    /// Descending a ladder is the case this exists for: any forward input
    /// carries the feet out of the ladder's block, and the block at the feet is
    /// the only thing that decides whether you are on a ladder at all.
    Wait { aim: Aim },
    Unsafe { at: BlockPos, next: BlockPos },
}

/// How far a follower got on its path.
#[derive(Clone, Copy, PartialEq, Eq, Structural, Debug)]
pub enum FollowerProgress {
    Unchanged,
    Advanced { from: usize, to: usize },
    Reanchored,
}

/// Why a follower gave up.
#[derive(Clone, Copy, PartialEq, Eq, Structural, Debug)]
pub enum FollowerFailure {
    TimedOut,
    FellOff,
    Stalled,
}

#[derive(Debug)]
pub struct PathFollower {
    pub path: Path,
    pub settings: FollowerSettings,
    pub idx: usize,
    pub last_progress_idx: usize,
    pub stalled: u32,
    /// Ticks left of backing out of a pinch before trying the path again.
    pub escaping: u32,
    /// How many times we have backed out on this path.
    pub escapes_used: u32,
    pub total_ticks: u32,
    pub sprint_pause: u32,
    pub escape_hop_a: u32,
    pub escape_hop_b: u32,
    /// Phase of the heading's wander, in hundredths.
    pub yaw_phase: u64,
    pub pitch_phase: u64,
    /// Whole degrees added to the turn rate.
    pub turn_jitter: u64,
    pub rng: Rng,
    /// Progress not yet taken by [`PathFollower::take_progress`].
    pub progress: FollowerProgress,
    /// The reason it gave up, not yet taken by [`PathFollower::take_failure`].
    pub failure: Option<FollowerFailure>,
}

impl Clone for PathFollower {
    fn clone(&self) -> (copy: PathFollower)
        ensures
            copy == (PathFollower { path: copy.path, ..*self }),
            copy.path.nodes@ == self.path.nodes@,
            copy.path.total_cost == self.path.total_cost,
    {
        PathFollower {
            path: self.path.clone(),
            settings: self.settings,
            idx: self.idx,
            last_progress_idx: self.last_progress_idx,
            stalled: self.stalled,
            escaping: self.escaping,
            escapes_used: self.escapes_used,
            total_ticks: self.total_ticks,
            sprint_pause: self.sprint_pause,
            escape_hop_a: self.escape_hop_a,
            escape_hop_b: self.escape_hop_b,
            yaw_phase: self.yaw_phase,
            pitch_phase: self.pitch_phase,
            turn_jitter: self.turn_jitter,
            rng: self.rng,
            progress: self.progress,
            failure: self.failure,
        }
    }
}

/// Draws `n` values in turn; the last one.
pub open spec fn drawn(state: u64, n: nat) -> u64
    decreases n,
{
    if n == 0 {
        state
    } else {
        rng::scrambled(drawn(state, (n - 1) as nat))
    }
}

/// The state a seed starts a generator in.
pub open spec fn seed_state(seed: u64) -> u64 {
    if seed ^ 0x9e37_79b9_7f4a_7c15 == 0 {
        1
    } else {
        seed ^ 0x9e37_79b9_7f4a_7c15
    }
}

/// A follower at the beginning of a path: it approaches the second node, has
/// spent nothing, and has drawn its habits from the seed.
pub open spec fn begun(path: Path, settings: FollowerSettings, seed: u64) -> PathFollower {
    let start = seed_state(seed);
    let k: nat = if settings.turn_jitter_degrees == 0 {
        0
    } else {
        1
    };
    let idx = if path.nodes@.len() >= 2 {
        1usize
    } else {
        0
    };
    PathFollower {
        path,
        settings,
        idx,
        last_progress_idx: idx,
        stalled: 0,
        escaping: 0,
        escapes_used: 0,
        total_ticks: 0,
        sprint_pause: 0,
        escape_hop_a: rng::picked_tick(
            drawn(start, k + 3),
            settings.escape_hop_first_min_ticks,
            settings.escape_hop_first_max_ticks,
        ),
        escape_hop_b: rng::picked_tick(
            drawn(start, k + 4),
            settings.escape_hop_second_min_ticks,
            settings.escape_hop_second_max_ticks,
        ),
        yaw_phase: drawn(start, k + 1) % 628,
        pitch_phase: drawn(start, k + 2) % 628,
        turn_jitter: if settings.turn_jitter_degrees == 0 {
            0
        } else {
            drawn(start, 1) % settings.turn_jitter_degrees
        },
        rng: Rng(drawn(start, k + 4)),
        progress: FollowerProgress::Unchanged,
        failure: None,
    }
}

/// The node reached from `at` by leaving behind every flagged node.
pub open spec fn reached(count: int, left_behind: Seq<bool>, start: int, at: int) -> int
    decreases count - at,
{
    if at + 1 < count && at - start < left_behind.len() && left_behind[at - start] {
        reached(count, left_behind, start, at + 1)
    } else {
        at
    }
}

/// What a tick sees once the follower knows which node it approaches.
pub struct Sight {
    pub idx: usize,
    /// The node steered at.
    pub steer: usize,
    pub in_water: bool,
    pub on_ladder: bool,
    pub swimming_up: bool,
    pub climbing_up: bool,
}

/// Whether a node is landed on after a running jump.
pub open spec fn is_leap(kind: MoveKind) -> bool {
    kind is Parkour
}

pub open spec fn is_partial(kind: BlockKind) -> bool {
    kind is Step
}

/// Whether a tick must steer at the very node it approaches: jumps land on it,
/// climbs stay in its column, and partial terrain keeps the body on its lane.
pub open spec fn must_steer_close(
    terrain: Terrain,
    frame: &FollowerFrame,
    node: PathNode,
) -> bool {
    is_leap(node.reached_by) || node.reached_by is Climb || is_partial(terrain.kind(frame.feet))
        || is_partial(terrain.kind(node.pos))
}

impl PathFollower {
    pub open spec fn wf(self) -> bool {
        &&& self.path.nodes@.len() >= 2 ==> self.idx < self.path.nodes@.len()
        &&& self.last_progress_idx <= self.idx
    }

    pub fn new(path: Path, settings: FollowerSettings, seed: u64) -> (follower: PathFollower)
        ensures
            follower.wf(),
            follower == begun(path, settings, seed),
    {
        proof {
            reveal_with_fuel(drawn, 6);
        }
        let mut rng = Rng::seeded(seed);
        let turn_jitter: u64 = if settings.turn_jitter_degrees == 0 {
            0
        } else {
            rng.next() % settings.turn_jitter_degrees
        };
        let yaw_phase: u64 = rng.next() % 628;
        let pitch_phase: u64 = rng.next() % 628;
        let escape_hop_a: u32 = random_tick(
            &mut rng,
            settings.escape_hop_first_min_ticks,
            settings.escape_hop_first_max_ticks,
        );
        let escape_hop_b: u32 = random_tick(
            &mut rng,
            settings.escape_hop_second_min_ticks,
            settings.escape_hop_second_max_ticks,
        );
        let idx: usize = if path.nodes.len() >= 2 {
            1
        } else {
            0
        };
        PathFollower {
            path,
            settings,
            idx,
            last_progress_idx: idx,
            stalled: 0,
            escaping: 0,
            escapes_used: 0,
            total_ticks: 0,
            sprint_pause: 0,
            escape_hop_a,
            escape_hop_b,
            yaw_phase,
            pitch_phase,
            turn_jitter,
            rng,
            progress: FollowerProgress::Unchanged,
            failure: None,
        }
    }

    /// Takes the progress made since it was last taken.
    pub fn take_progress(&mut self) -> (progress: FollowerProgress)
        ensures
            progress == old(self).progress,
            *final(self) == (PathFollower {
                progress: FollowerProgress::Unchanged,
                ..*old(self)
            }),
    {
        let progress = self.progress;
        self.progress = FollowerProgress::Unchanged;
        progress
    }

    /// Takes the reason for giving up, if it gave up since it was last taken.
    pub fn take_failure(&mut self) -> (failure: Option<FollowerFailure>)
        ensures
            failure == old(self).failure,
            *final(self) == (PathFollower { failure: None, ..*old(self) }),
    {
        let failure = self.failure;
        self.failure = None;
        failure
    }

    pub fn path(&self) -> (path: &Path)
        ensures
            *path == self.path,
    {
        &self.path
    }

    pub fn current_node_index(&self) -> (idx: usize)
        ensures
            idx == self.idx,
    {
        self.idx
    }

    /// Ticks this follower has spent walking.
    pub fn elapsed_ticks(&self) -> (ticks: u32)
        ensures
            ticks == self.total_ticks,
    {
        self.total_ticks
    }

    /// Continue another follower's walking clock instead of starting a fresh
    /// one.
    ///
    /// Replacing the path of a journey already in progress must not also
    /// replace how long it has been going: the follow limit is the only thing
    /// that catches a route being walked forever, and a goal replanned on a
    /// timer would otherwise reset it faster than it could ever be spent.
    pub fn resume_after(&mut self, ticks: u32)
        ensures
            *final(self) == (PathFollower {
                total_ticks: arith::max_int(old(self).total_ticks as int, ticks as int) as u32,
                ..*old(self)
            }),
    {
        self.total_ticks = arith::max_u32(self.total_ticks, ticks);
    }

    /// The node a tick approaches.
    pub open spec fn approached(self, frame: &FollowerFrame) -> int {
        reached(
            self.path.nodes@.len() as int,
            frame.left_behind@,
            self.idx as int,
            self.idx as int,
        )
    }

    /// The follower once it approaches its node.
    pub open spec fn moved(self, frame: &FollowerFrame) -> PathFollower {
        let idx = self.approached(frame) as usize;
        PathFollower {
            total_ticks: arith::clamp_u32(self.total_ticks + 1),
            idx,
            progress: if idx != self.idx {
                FollowerProgress::Advanced { from: self.idx, to: idx }
            } else {
                self.progress
            },
            ..self
        }
    }

    /// Whether `sight` is what the follower sees from its position.
    pub open spec fn sees(self, terrain: Terrain, frame: &FollowerFrame, sight: Sight) -> bool {
        let nodes = self.path.nodes@;
        let node = nodes[sight.idx as int];
        let kind = terrain.kind(frame.feet);
        let steer_y = nodes[sight.steer as int].pos.y;
        &&& sight.idx == self.approached(frame)
        &&& if must_steer_close(terrain, frame, node) {
            sight.steer == sight.idx
        } else {
            line::furthest_in_sight(
                terrain,
                nodes,
                sight.idx as int,
                line::sight_limit(
                    nodes.len() as int,
                    sight.idx as int,
                    self.settings.max_los_skip as int,
                    frame.lines@.len() as int,
                ),
                frame.lines@,
                self.settings.lava_policy,
                sight.steer as int,
            )
        }
        &&& sight.in_water == (kind is Water)
        &&& sight.on_ladder == (kind is Climbable)
        &&& sight.swimming_up == (kind is Water && steer_y >= frame.feet.y)
        &&& sight.climbing_up == (kind is Climbable && steer_y >= frame.rising_from)
    }

    /// The directive of a tick that ends before anything is steered at, and
    /// the follower it leaves.
    pub open spec fn stopped(
        self,
        terrain: Terrain,
        frame: &FollowerFrame,
    ) -> Option<(PathFollower, FollowerDirective)> {
        let nodes = self.path.nodes@;
        let total_ticks = arith::clamp_u32(self.total_ticks + 1);
        let idx = self.approached(frame);
        let moved = self.moved(frame);
        let next = nodes[idx].pos;
        if nodes.len() < 2 {
            Some((self, FollowerDirective::Arrived))
        } else if frame.paused {
            Some((PathFollower { stalled: 0, ..self }, FollowerDirective::Paused))
        } else if total_ticks > arith::max_int(self.settings.max_follow_ticks as int, 1) {
            Some(
                (
                    PathFollower {
                        total_ticks,
                        failure: Some(FollowerFailure::TimedOut),
                        ..self
                    },
                    FollowerDirective::Stuck { at: frame.feet },
                ),
            )
        } else if frame.arrived {
            Some((moved, FollowerDirective::Arrived))
        } else if frame.on_ground && next.y >= frame.fallen_from {
            Some(
                (
                    PathFollower { failure: Some(FollowerFailure::FellOff), ..moved },
                    FollowerDirective::Stuck { at: frame.feet },
                ),
            )
        } else if !line::way_is_safe(
            terrain,
            frame.feet,
            next,
            self.settings.lava_policy,
            frame.way@,
        ) {
            Some((moved, FollowerDirective::Unsafe { at: frame.feet, next }))
        } else {
            None
        }
    }

    /// The directive of a tick that backs out of a pinch or gives up, and the
    /// follower it leaves. `self` already approaches its node.
    pub open spec fn escaped(
        self,
        frame: &FollowerFrame,
        sight: Sight,
    ) -> Option<(PathFollower, FollowerDirective)> {
        let stalled = arith::clamp_u32(self.stalled + 1);
        if self.escaping > 0 {
            let escaping = (self.escaping - 1) as u32;
            Some(
                (
                    PathFollower { escaping, ..self },
                    FollowerDirective::Move {
                        aim: Aim::Retreat { from: sight.steer, flipped: self.escapes_used >= 2 },
                        sprint: false,
                        jump: sight.swimming_up || sight.climbing_up || (escaping % 6 == 0
                            && frame.on_ground),
                        wander: false,
                        turn: true,
                    },
                ),
            )
        } else if self.idx > self.last_progress_idx || stalled <= arith::max_int(
            self.settings.stall_ticks as int,
            1,
        ) {
            None
        } else if self.escapes_used < MAX_ESCAPES {
            let escapes_used = (self.escapes_used + 1) as u32;
            Some(
                (
                    PathFollower {
                        escapes_used,
                        escaping: ESCAPE_TICKS,
                        stalled: 0,
                        ..self
                    },
                    FollowerDirective::Move {
                        aim: Aim::Retreat { from: sight.steer, flipped: escapes_used >= 2 },
                        sprint: false,
                        jump: false,
                        wander: false,
                        turn: true,
                    },
                ),
            )
        } else {
            Some(
                (
                    PathFollower { stalled, failure: Some(FollowerFailure::Stalled), ..self },
                    FollowerDirective::Stuck { at: frame.feet },
                ),
            )
        }
    }

    /// The follower once this tick's progress is counted.
    pub open spec fn counted(self) -> PathFollower {
        if self.idx > self.last_progress_idx {
            PathFollower { last_progress_idx: self.idx, stalled: 0, escapes_used: 0, ..self }
        } else {
            PathFollower { stalled: arith::clamp_u32(self.stalled + 1), ..self }
        }
    }

    /// Whether the body should line up on its own block before pushing on.
    pub open spec fn squares_up(self, frame: &FollowerFrame) -> bool {
        frame.horizontal_collision && self.stalled >= WEDGE_TICKS && frame.off_centre
    }

    /// Where a walking tick steers before ladders are considered.
    pub open spec fn ground_aim(self, frame: &FollowerFrame, sight: Sight) -> Aim {
        if self.squares_up(frame) {
            Aim::OwnBlock { height_of: sight.steer }
        } else {
            Aim::Node(sight.steer)
        }
    }

    /// Whether a walking tick presses jump.
    pub open spec fn jumps(self, frame: &FollowerFrame, sight: Sight) -> bool {
        let node = self.path.nodes@[sight.idx as int];
        let at_edge = if self.squares_up(frame) {
            frame.past_edge_squared_up
        } else {
            frame.past_edge
        };
        let rises = node.pos.y >= frame.stepping_from;
        let taking_off = is_leap(node.reached_by) && at_edge;
        let stepping_up = node.reached_by is Jump && frame.in_step_range && rises;
        let blocked = frame.horizontal_collision && rises;
        let shove = frame.horizontal_collision && (self.stalled == self.escape_hop_a || self.stalled
            == self.escape_hop_b);
        sight.swimming_up || sight.climbing_up || (frame.on_ground && (taking_off || stepping_up
            || blocked || shove))
    }

    /// Whether a walking tick sprints, and the follower it leaves: never on
    /// ladders or in water, as a jump needs it, and otherwise on the ground
    /// with the occasional break.
    pub open spec fn sprints(self, frame: &FollowerFrame, sight: Sight) -> (PathFollower, bool) {
        let denominator = if self.settings.sprint_break_chance_denominator == 0 {
            1
        } else {
            self.settings.sprint_break_chance_denominator
        };
        let draw = rng::scrambled(self.rng.0);
        if sight.on_ladder || sight.in_water {
            (self, false)
        } else {
            match self.path.nodes@[sight.idx as int].reached_by {
                MoveKind::Parkour { blocks, .. } => (self, blocks >= 3 && frame.on_ground),
                _ => if self.sprint_pause > 0 {
                    (PathFollower { sprint_pause: (self.sprint_pause - 1) as u32, ..self }, false)
                } else if !frame.on_ground {
                    (self, false)
                } else if draw % denominator == 0 {
                    (
                        PathFollower {
                            rng: Rng(rng::scrambled(draw)),
                            sprint_pause: rng::picked_tick(
                                rng::scrambled(draw),
                                self.settings.sprint_break_min_ticks,
                                self.settings.sprint_break_max_ticks,
                            ),
                            ..self
                        },
                        false,
                    )
                } else {
                    (PathFollower { rng: Rng(draw), ..self }, true)
                },
            }
        }
    }

    /// The directive of a walking tick, and the follower it leaves.
    pub open spec fn walked(
        self,
        terrain: Terrain,
        frame: &FollowerFrame,
        sight: Sight,
    ) -> (PathFollower, FollowerDirective) {
        let steer_y = self.path.nodes@[sight.steer as int].pos.y;
        let aim = self.ground_aim(frame, sight);
        if sight.on_ladder && steer_y <= frame.sinking_to {
            (self, FollowerDirective::Wait { aim })
        } else {
            let (after, sprint) = self.sprints(frame, sight);
            let jump = self.jumps(frame, sight);
            (
                after,
                FollowerDirective::Move {
                    aim: match line::fixing(terrain, frame.feet) {
                        Some(wall) if sight.climbing_up => Aim::Wall {
                            wall,
                            height_of: sight.steer,
                        },
                        _ => aim,
                    },
                    sprint,
                    jump,
                    wander: true,
                    turn: !(jump && frame.on_ground),
                },
            )
        }
    }

    /// What one tick does.
    pub open spec fn ticked(
        self,
        terrain: Terrain,
        frame: &FollowerFrame,
        after: PathFollower,
        directive: FollowerDirective,
    ) -> bool {
        match self.stopped(terrain, frame) {
            Some(end) => (after, directive) == end,
            None => exists|sight: Sight| #[trigger]
                self.sees(terrain, frame, sight) && {
                    let moved = self.moved(frame);
                    match moved.escaped(frame, sight) {
                        Some(end) => (after, directive) == end,
                        None => (after, directive) == moved.counted().walked(
                            terrain,
                            frame,
                            sight,
                        ),
                    }
                },
        }
    }
}

/// The live world has the last word: a tick steers only along a way that the
/// lava policy finds safe now, whatever was planned.
pub proof fn steps_are_checked_live(
    follower: PathFollower,
    terrain: Terrain,
    frame: &FollowerFrame,
    after: PathFollower,
    directive: FollowerDirective,
)
    requires
        follower.ticked(terrain, frame, after, directive),
        directive is Move || directive is Wait,
    ensures
        !frame.paused,
        line::way_is_safe(
            terrain,
            frame.feet,
            follower.path.nodes@[follower.approached(frame)].pos,
            follower.settings.lava_policy,
            frame.way@,
        ),
{
}

/// A pause holds a follower where it is: nothing but its stall count changes.
pub proof fn pauses_hold_the_follower(
    follower: PathFollower,
    terrain: Terrain,
    frame: &FollowerFrame,
    after: PathFollower,
    directive: FollowerDirective,
)
    requires
        follower.ticked(terrain, frame, after, directive),
        follower.path.nodes@.len() >= 2,
        frame.paused,
    ensures
        directive is Paused,
        after == (PathFollower { stalled: 0, ..follower }),
{
}

/// The advance along the path never passes its last node and never goes back.
pub proof fn followers_only_move_forward(count: int, left_behind: Seq<bool>, start: int, at: int)
    requires
        start <= at < count,
    ensures
        at <= reached(count, left_behind, start, at) < count,
    decreases count - at,
{
    if at + 1 < count && at - start < left_behind.len() && left_behind[at - start] {
        followers_only_move_forward(count, left_behind, start, at + 1);
    }
}

impl PathFollower {
    /// Leaves behind every node the frame flags.
    fn advance_index(&mut self, frame: &FollowerFrame)
        requires
            old(self).wf(),
            old(self).path.nodes@.len() >= 2,
        ensures
            final(self).wf(),
            final(self).idx == old(self).approached(frame),
            *final(self) == (PathFollower {
                idx: final(self).idx,
                progress: if final(self).idx != old(self).idx {
                    FollowerProgress::Advanced { from: old(self).idx, to: final(self).idx }
                } else {
                    old(self).progress
                },
                ..*old(self)
            }),
    {
        let count: usize = self.path.nodes.len();
        let start: usize = self.idx;
        let ghost first = *self;
        while self.idx + 1 < count && self.idx - start < frame.left_behind.len()
            && frame.left_behind[self.idx - start]
            invariant
                count == self.path.nodes@.len(),
                start <= self.idx < count,
                self.wf(),
                first == *old(self),
                start == first.idx,
                *self == (PathFollower { idx: self.idx, ..first }),
                reached(count as int, frame.left_behind@, start as int, start as int) == reached(
                    count as int,
                    frame.left_behind@,
                    start as int,
                    self.idx as int,
                ),
            decreases count - self.idx,
        {
            self.idx = self.idx + 1;
        }
        if self.idx != start {
            self.progress = FollowerProgress::Advanced { from: start, to: self.idx };
        }
    }

    fn look<W: WorldView + ?Sized>(&self, world: &W, frame: &FollowerFrame, Ghost(
        before,
    ): Ghost<PathFollower>) -> (sight: Sight)
        requires
            self.wf(),
            self.path.nodes@.len() >= 2,
            before.path == self.path,
            before.settings == self.settings,
            self.idx == before.approached(frame),
        ensures
            before.sees(world.terrain(), frame, sight),
            sight.idx == self.idx,
            sight.steer < self.path.nodes@.len(),
    {
        let node = self.path.nodes[self.idx];
        let feet_kind = world.block(frame.feet);
        let close: bool = match node.reached_by {
            MoveKind::Parkour { .. } | MoveKind::Climb => true,
            _ => match feet_kind {
                BlockKind::Step(_) => true,
                _ => match world.block(node.pos) {
                    BlockKind::Step(_) => true,
                    _ => false,
                },
            },
        };
        let steer: usize = if close {
            self.idx
        } else {
            furthest_visible(
                world,
                &self.path.nodes,
                self.idx,
                self.settings.max_los_skip,
                &frame.lines,
                self.settings.lava_policy,
            )
        };
        let steer_y: i32 = self.path.nodes[steer].pos.y;
        let in_water: bool = feet_kind == BlockKind::Water;
        let on_ladder: bool = feet_kind == BlockKind::Climbable;
        Sight {
            idx: self.idx,
            steer,
            in_water,
            on_ladder,
            swimming_up: in_water && steer_y >= frame.feet.y,
            climbing_up: on_ladder && steer_y as i64 >= frame.rising_from,
        }
    }

    /// Backs out of a pinch or gives up, or counts this tick's progress.
    fn try_escape(&mut self, frame: &FollowerFrame, sight: &Sight) -> (end: Option<
        FollowerDirective,
    >)
        requires
            old(self).wf(),
        ensures
            final(self).wf(),
            match end {
                Some(directive) => old(self).escaped(frame, *sight) == Some(
                    (*final(self), directive),
                ),
                None => old(self).escaped(frame, *sight) is None && *final(self) == old(self).counted(),
            },
    {
        if self.escaping > 0 {
            self.escaping = self.escaping - 1;
            return Some(
                FollowerDirective::Move {
                    aim: Aim::Retreat { from: sight.steer, flipped: self.escapes_used >= 2 },
                    sprint: false,
                    jump: sight.swimming_up || sight.climbing_up || (self.escaping % 6 == 0
                        && frame.on_ground),
                    wander: false,
                    turn: true,
                },
            );
        }
        if self.idx > self.last_progress_idx {
            self.last_progress_idx = self.idx;
            self.stalled = 0;
            self.escapes_used = 0;
            return None;
        }
        self.stalled = self.stalled.saturating_add(1);
        if self.stalled <= arith::max_u32(self.settings.stall_ticks, 1) {
            return None;
        }
        if self.escapes_used < MAX_ESCAPES {
            self.escapes_used = self.escapes_used + 1;
            self.escaping = ESCAPE_TICKS;
            self.stalled = 0;
            return Some(
                FollowerDirective::Move {
                    aim: Aim::Retreat { from: sight.steer, flipped: self.escapes_used >= 2 },
                    sprint: false,
                    jump: false,
                    wander: false,
                    turn: true,
                },
            );
        }
        self.failure = Some(FollowerFailure::Stalled);
        Some(FollowerDirective::Stuck { at: frame.feet })
    }

    fn choose_sprint(&mut self, frame: &FollowerFrame, sight: &Sight) -> (sprint: bool)
        requires
            old(self).wf(),
            sight.idx < old(self).path.nodes@.len(),
        ensures
            final(self).wf(),
            (*final(self), sprint) == old(self).sprints(frame, *sight),
    {
        if sight.on_ladder || sight.in_water {
            return false;
        }
        if let MoveKind::Parkour { blocks, .. } = self.path.nodes[sight.idx].reached_by {
            return blocks >= 3 && frame.on_ground;
        }
        if self.sprint_pause > 0 {
            self.sprint_pause = self.sprint_pause - 1;
            return false;
        }
        if !frame.on_ground {
            return false;
        }
        let denominator: u64 = if self.settings.sprint_break_chance_denominator == 0 {
            1
        } else {
            self.settings.sprint_break_chance_denominator
        };
        let mut rng = self.rng;
        let draw: u64 = rng.next();
        if draw % denominator == 0 {
            let pause: u32 = random_tick(
                &mut rng,
                self.settings.sprint_break_min_ticks,
                self.settings.sprint_break_max_ticks,
            );
            self.rng = rng;
            self.sprint_pause = pause;
            return false;
        }
        self.rng = rng;
        true
    }

    fn walk<W: WorldView + ?Sized>(&mut self, world: &W, frame: &FollowerFrame, sight: &Sight) -> (
    directive: FollowerDirective)
        requires
            old(self).wf(),
            sight.idx < old(self).path.nodes@.len(),
            sight.steer < old(self).path.nodes@.len(),
        ensures
            final(self).wf(),
            (*final(self), directive) == old(self).walked(world.terrain(), frame, *sight),
    {
        let node = self.path.nodes[sight.idx];
        let steer_y: i64 = self.path.nodes[sight.steer].pos.y as i64;
        let squared_up: bool = frame.horizontal_collision && self.stalled >= WEDGE_TICKS
            && frame.off_centre;
        let aim = if squared_up {
            Aim::OwnBlock { height_of: sight.steer }
        } else {
            Aim::Node(sight.steer)
        };
        if sight.on_ladder && steer_y <= frame.sinking_to {
            return FollowerDirective::Wait { aim };
        }
        let at_edge: bool = if squared_up {
            frame.past_edge_squared_up
        } else {
            frame.past_edge
        };
        let rises: bool = node.pos.y as i64 >= frame.stepping_from;
        let (leap, hop): (bool, bool) = match node.reached_by {
            MoveKind::Parkour { .. } => (true, false),
            MoveKind::Jump => (false, true),
            _ => (false, false),
        };
        let shove: bool = frame.horizontal_collision && (self.stalled == self.escape_hop_a
            || self.stalled == self.escape_hop_b);
        let jump: bool = sight.swimming_up || sight.climbing_up || (frame.on_ground && ((leap
            && at_edge) || (hop && frame.in_step_range && rises) || (frame.horizontal_collision
            && rises) || shove));
        let wall = ladder_wall(world, frame.feet);
        let target = match wall {
            Some(wall) if sight.climbing_up => Aim::Wall { wall, height_of: sight.steer },
            _ => aim,
        };
        let sprint: bool = self.choose_sprint(frame, sight);
        FollowerDirective::Move {
            aim: target,
            sprint,
            jump,
            wander: true,
            turn: !(jump && frame.on_ground),
        }
    }

    /// Decides one tick of walking.
    pub fn tick<W: WorldView + ?Sized>(&mut self, world: &W, frame: &FollowerFrame) -> (directive:
        FollowerDirective)
        requires
            old(self).wf(),
        ensures
            final(self).wf(),
            final(self).path == old(self).path,
            old(self).ticked(world.terrain(), frame, *final(self), directive),
    {
        let ghost start = *self;
        if self.path.nodes.len() < 2 {
            return FollowerDirective::Arrived;
        }
        if frame.paused {
            self.stalled = 0;
            return FollowerDirective::Paused;
        }
        self.total_ticks = self.total_ticks.saturating_add(1);
        if self.total_ticks > arith::max_u32(self.settings.max_follow_ticks, 1) {
            self.failure = Some(FollowerFailure::TimedOut);
            return FollowerDirective::Stuck { at: frame.feet };
        }
        proof {
            followers_only_move_forward(
                self.path.nodes@.len() as int,
                frame.left_behind@,
                self.idx as int,
                self.idx as int,
            );
        }
        self.advance_index(frame);
        if frame.arrived {
            return FollowerDirective::Arrived;
        }
        let next = self.path.nodes[self.idx].pos;
        // No move climbs more than a block at a time, so standing several below
        // the node being steered at means the route is gone, not that the bot
        // is behind on it.
        if frame.on_ground && next.y as i64 >= frame.fallen_from {
            self.failure = Some(FollowerFailure::FellOff);
            return FollowerDirective::Stuck { at: frame.feet };
        }
        if !live_next_node_is_safe(
            world,
            frame.feet,
            next,
            self.settings.lava_policy,
            frame.way.as_slice(),
        ) {
            return FollowerDirective::Unsafe { at: frame.feet, next };
        }
        let sight = self.look(world, frame, Ghost(start));
        assert(start.sees(world.terrain(), frame, sight));
        if let Some(directive) = self.try_escape(frame, &sight) {
            return directive;
        }
        self.walk(world, frame, &sight)
    }
}

/// A follower never jumps for a rise it has not reached: on the ground, out of
/// water and off ladders, a jump has a takeoff, a step within range, a wall in
/// the way of a rise, or a stall behind it.
pub proof fn jumps_have_a_reason(
    follower: PathFollower,
    frame: &FollowerFrame,
    sight: Sight,
)
    requires
        follower.jumps(frame, sight),
        !sight.swimming_up,
        !sight.climbing_up,
        !is_leap(follower.path.nodes@[sight.idx as int].reached_by),
        follower.stalled != follower.escape_hop_a,
        follower.stalled != follower.escape_hop_b,
    ensures
        frame.on_ground,
        follower.path.nodes@[sight.idx as int].pos.y >= frame.stepping_from,
{
}

} // verus!
