//! The search tree of a best-first search and the invariants it keeps.
use vstd::prelude::*;
use vstd::multiset::Multiset;

use crate::adaptive::model::CostModelSnapshot;
use crate::arith;
use crate::frontier;
use crate::frontier::{Frontier, OpenEntry};
use crate::local::goal::Goal;
use crate::local::graph_model::{Hop, Problem};
use crate::local::moves;
use crate::local::moves::{lava_risk, lava_transition_allowed, Edge, LavaPolicy, Move, MoveContext};
use crate::local::tolls;
use crate::local::tolls::terrain_penalty;
use crate::local::world::WorldView;
use crate::planning::MotionMetadata;
use crate::pos::BlockPos;
use crate::pos_map::PosMap;
use crate::types::{Cost, MoveKind, Path, PathNode};

verus! {

/// What a search knows about one reached position.
#[derive(Clone, Copy, PartialEq, Eq, Debug)]
pub struct NodeData {
    pub g: Cost,
    pub parent: Option<BlockPos>,
    pub reached_by: MoveKind,
    pub metadata: Option<MotionMetadata>,
}

/// The fixed inputs of a search.
pub struct Setup<'a, W: WorldView + ?Sized, G: Goal + ?Sized, M: Move> {
    pub world: &'a W,
    pub moves: &'a [M],
    pub ctx: &'a MoveContext,
    pub cost_model: Option<&'a CostModelSnapshot>,
    pub goal: &'a G,
    pub start: BlockPos,
    /// Whether the frontier is ordered by the goal's lower bound.
    pub use_heuristic: bool,
}

impl<'a, W: WorldView + ?Sized, G: Goal + ?Sized, M: Move> Setup<'a, W, G, M> {
    pub open spec fn problem(&self) -> Problem<M> {
        Problem {
            terrain: self.world.terrain(),
            ctx: *self.ctx,
            moves: self.moves@,
            model: match self.cost_model {
                Some(model) => Some(*model),
                None => None,
            },
        }
    }

    pub open spec fn estimate(&self, pos: BlockPos) -> Cost {
        self.problem().estimate(self.goal, self.use_heuristic, pos)
    }

    pub open spec fn finishes(&self, pos: BlockPos) -> bool {
        self.problem().finishes(self.goal, pos)
    }

    pub fn heuristic(&self, pos: BlockPos) -> (h: Cost)
        ensures
            h == self.estimate(pos),
    {
        if self.use_heuristic {
            match self.goal.heuristic_lower_bound(pos, self.ctx) {
                Some(bound) => bound,
                None => 0,
            }
        } else {
            0
        }
    }
}

/// Reordering of equal estimates by position and seed.
pub open spec fn shuffled(pos: BlockPos, seed: u64) -> u64 {
    let mixed = seed ^ (pos.x as u64).wrapping_mul(0x9E37_79B9_7F4A_7C15) ^ (
    pos.z as u64).wrapping_mul(0xC2B2_AE3D_27D4_EB4F) ^ (pos.y as u64);
    let a = mixed ^ (mixed << 13);
    let b = a ^ (a >> 7);
    b ^ (b << 17)
}

/// The tie-break class of a position, one of three.
pub open spec fn tie_class(pos: BlockPos, seed: u64) -> Cost {
    (shuffled(pos, seed) % 3) as Cost
}

pub fn tie_break(pos: BlockPos, seed: u64) -> (class: Cost)
    ensures
        class == tie_class(pos, seed),
        class < 3,
{
    let mixed: u64 = seed ^ (pos.x as u64).wrapping_mul(0x9E37_79B9_7F4A_7C15) ^ (
    pos.z as u64).wrapping_mul(0xC2B2_AE3D_27D4_EB4F) ^ (pos.y as u64);
    let a: u64 = mixed ^ (mixed << 13);
    let b: u64 = a ^ (a >> 7);
    let c: u64 = b ^ (b << 17);
    (c % 3) as Cost
}

/// The start is its own root.
pub open spec fn rooted(nodes: Map<BlockPos, NodeData>, start: BlockPos) -> bool {
    nodes.contains_key(start) && nodes[start] == (NodeData {
        g: 0,
        parent: None,
        reached_by: MoveKind::Start,
        metadata: None,
    })
}

/// Whether `hop` from `parent` explains how `pos` was reached. The recorded
/// cost may lag behind a parent that was improved later, never the other way.
pub open spec fn reached_by_hop<M: Move>(
    problem: Problem<M>,
    nodes: Map<BlockPos, NodeData>,
    parent: BlockPos,
    pos: BlockPos,
    hop: Hop,
) -> bool {
    let edge = problem.edge(parent, hop);
    &&& problem.legal(parent, hop)
    &&& edge.to == pos
    &&& edge.kind == nodes[pos].reached_by
    &&& nodes[pos].metadata == problem.account(parent, hop.rule, edge)
    &&& arith::clamp_u32(nodes[parent].g + problem.price(parent, hop)) <= nodes[pos].g
}

/// Parents come strictly before their children in cost or, at equal cost, in
/// time of discovery.
pub open spec fn precedes(
    nodes: Map<BlockPos, NodeData>,
    stamps: Map<BlockPos, nat>,
    parent: BlockPos,
    pos: BlockPos,
) -> bool {
    nodes[parent].g < nodes[pos].g || (nodes[parent].g == nodes[pos].g && stamps[parent]
        < stamps[pos])
}

pub open spec fn linked_at<M: Move>(
    problem: Problem<M>,
    nodes: Map<BlockPos, NodeData>,
    stamps: Map<BlockPos, nat>,
    pos: BlockPos,
) -> bool {
    match nodes[pos].parent {
        Some(parent) => {
            &&& nodes.contains_key(parent)
            &&& precedes(nodes, stamps, parent, pos)
            &&& exists|hop: Hop| #[trigger] reached_by_hop(problem, nodes, parent, pos, hop)
        },
        None => false,
    }
}

/// Every node but the start was reached from its parent by a legal hop.
#[verifier::opaque]
pub open spec fn linked<M: Move>(
    problem: Problem<M>,
    start: BlockPos,
    nodes: Map<BlockPos, NodeData>,
    stamps: Map<BlockPos, nat>,
) -> bool {
    forall|pos: BlockPos| #[trigger]
        nodes.contains_key(pos) && pos != start ==> linked_at(problem, nodes, stamps, pos)
}

pub open spec fn stamped(
    nodes: Map<BlockPos, NodeData>,
    stamps: Map<BlockPos, nat>,
    now: nat,
) -> bool {
    forall|pos: BlockPos| #[trigger] nodes.contains_key(pos) ==> stamps[pos] < now
}

/// Queue entries never undercut what is known of their node, and carry the
/// estimate of the cost they were queued with.
pub open spec fn queue_sound(
    nodes: Map<BlockPos, NodeData>,
    queue: Multiset<OpenEntry>,
    estimate: spec_fn(BlockPos) -> Cost,
) -> bool {
    forall|entry: OpenEntry| #[trigger]
        queue.contains(entry) ==> {
            &&& nodes.contains_key(entry.pos)
            &&& nodes[entry.pos].g <= entry.g
            &&& entry.f == arith::clamp_u32(entry.g + estimate(entry.pos))
        }
}

/// Queue entries of equal estimate are ordered by the classes of their positions
/// under `seed`.
pub open spec fn tied_by(queue: Multiset<OpenEntry>, seed: u64) -> bool {
    forall|entry: OpenEntry| #[trigger]
        queue.contains(entry) ==> entry.tie == tie_class(entry.pos, seed)
}

/// What is queued for a node reached at cost `g`: the estimate of a walk through
/// it, its class under the seed, and where and at what cost it was reached.
pub open spec fn ranked<M: Move, G: Goal + ?Sized>(
    problem: Problem<M>,
    goal: &G,
    guided: bool,
    pos: BlockPos,
    g: Cost,
) -> OpenEntry {
    OpenEntry {
        f: arith::clamp_u32(g + problem.estimate(goal, guided, pos)),
        tie: tie_class(pos, problem.ctx.path_seed),
        pos,
        g,
    }
}

/// Whether `entry` comes up next: it is first among the queued entries that
/// carry the current cost of their node.
pub open spec fn next_up(
    nodes: Map<BlockPos, NodeData>,
    queue: Multiset<OpenEntry>,
    entry: OpenEntry,
) -> bool {
    &&& queue.contains(entry)
    &&& entry.g == nodes[entry.pos].g
    &&& forall|other: OpenEntry| #[trigger]
        queue.contains(other) && other.g == nodes[other.pos].g ==> frontier::entry_le(entry, other)
}

/// Whether every cost of a node is queued at most once.
pub open spec fn queued_once(queue: Multiset<OpenEntry>) -> bool {
    &&& forall|entry: OpenEntry| #[trigger] queue.count(entry) <= 1
    &&& forall|a: OpenEntry, b: OpenEntry|
        #[trigger] queue.contains(a) && #[trigger] queue.contains(b) && a.pos == b.pos && a.g == b.g
            ==> a == b
}

/// Whether a node waits in the queue with its current cost.
pub open spec fn pending(
    nodes: Map<BlockPos, NodeData>,
    queue: Multiset<OpenEntry>,
    pos: BlockPos,
) -> bool {
    exists|entry: OpenEntry| #[trigger]
        queue.contains(entry) && entry.pos == pos && entry.g == nodes[pos].g
}

/// Whether the far end of a hop is known at no more than the hop's cost.
pub open spec fn covered<M: Move>(
    problem: Problem<M>,
    nodes: Map<BlockPos, NodeData>,
    pos: BlockPos,
    hop: Hop,
) -> bool {
    let to = problem.edge(pos, hop).to;
    nodes.contains_key(to) && nodes[to].g <= arith::clamp_u32(
        nodes[pos].g + problem.price(pos, hop),
    )
}

/// Whether a node has been refused as a finish and fully expanded.
pub open spec fn settled<M: Move>(
    problem: Problem<M>,
    nodes: Map<BlockPos, NodeData>,
    finishes: spec_fn(BlockPos) -> bool,
    pos: BlockPos,
) -> bool {
    &&& !finishes(pos)
    &&& forall|hop: Hop| #[trigger]
        problem.legal(pos, hop) ==> covered(problem, nodes, pos, hop)
}

/// Every reached node is pending or settled.
pub open spec fn complete<M: Move>(
    problem: Problem<M>,
    nodes: Map<BlockPos, NodeData>,
    queue: Multiset<OpenEntry>,
    finishes: spec_fn(BlockPos) -> bool,
) -> bool {
    forall|pos: BlockPos| #[trigger]
        nodes.contains_key(pos) ==> pending(nodes, queue, pos) || settled(
            problem,
            nodes,
            finishes,
            pos,
        )
}

/// Whether `hop` comes before choice `choice` of rule `rule`.
pub open spec fn hop_before(hop: Hop, rule: int, choice: int) -> bool {
    hop.rule < rule || (hop.rule == rule && hop.choice < choice)
}

/// Every reached node but `current` is pending or settled, and the hops of
/// `current` before a point in its expansion are covered.
pub open spec fn expanding<M: Move>(
    problem: Problem<M>,
    nodes: Map<BlockPos, NodeData>,
    queue: Multiset<OpenEntry>,
    finishes: spec_fn(BlockPos) -> bool,
    current: BlockPos,
    rule: int,
    choice: int,
) -> bool {
    &&& nodes.contains_key(current)
    &&& !finishes(current)
    &&& forall|pos: BlockPos| #[trigger]
        nodes.contains_key(pos) && pos != current ==> pending(nodes, queue, pos) || settled(
            problem,
            nodes,
            finishes,
            pos,
        )
    &&& forall|hop: Hop| #[trigger]
        problem.legal(current, hop) && hop_before(hop, rule, choice) ==> covered(
            problem,
            nodes,
            current,
            hop,
        )
}

/// Recording a cheaper arrival keeps every link and every covered hop, and
/// leaves the improved node pending.
proof fn lemma_improve<M: Move>(
    problem: Problem<M>,
    start: BlockPos,
    nodes: Map<BlockPos, NodeData>,
    stamps: Map<BlockPos, nat>,
    now: nat,
    queue: Multiset<OpenEntry>,
    estimate: spec_fn(BlockPos) -> Cost,
    finishes: spec_fn(BlockPos) -> bool,
    current: BlockPos,
    hop: Hop,
    data: NodeData,
    entry: OpenEntry,
)
    requires
        rooted(nodes, start),
        linked(problem, start, nodes, stamps),
        stamped(nodes, stamps, now),
        queue_sound(nodes, queue, estimate),
        expanding(problem, nodes, queue, finishes, current, hop.rule, hop.choice),
        problem.legal(current, hop),
        data.parent == Some(current),
        data.reached_by == problem.edge(current, hop).kind,
        data.metadata == problem.account(current, hop.rule, problem.edge(current, hop)),
        data.g == arith::clamp_u32(nodes[current].g + problem.price(current, hop)),
        nodes.contains_key(problem.edge(current, hop).to) ==> data.g
            < nodes[problem.edge(current, hop).to].g,
        entry.pos == problem.edge(current, hop).to,
        entry.g == data.g,
        entry.f == arith::clamp_u32(data.g + estimate(entry.pos)),
    ensures
        ({
            let to = problem.edge(current, hop).to;
            let after = nodes.insert(to, data);
            let marks = stamps.insert(to, now);
            let open = queue.insert(entry);
            &&& to != current
            &&& to != start
            &&& rooted(after, start)
            &&& linked(problem, start, after, marks)
            &&& stamped(after, marks, now + 1)
            &&& queue_sound(after, open, estimate)
            &&& expanding(problem, after, open, finishes, current, hop.rule, hop.choice + 1)
        }),
{
    reveal(linked);
    let to = problem.edge(current, hop).to;
    let after = nodes.insert(to, data);
    let marks = stamps.insert(to, now);
    let open = queue.insert(entry);
    assert(to != current);
    assert(to != start);
    assert forall|pos: BlockPos| #[trigger]
        after.contains_key(pos) && pos != start implies linked_at(problem, after, marks, pos) by {
        if pos == to {
            assert(reached_by_hop(problem, after, current, to, hop));
            assert(nodes.contains_key(current));
        } else {
            assert(nodes.contains_key(pos));
            assert(linked_at(problem, nodes, stamps, pos));
            let parent = nodes[pos].parent->0;
            let old_hop = choose|h: Hop| #[trigger]
                reached_by_hop(problem, nodes, parent, pos, h);
            assert(reached_by_hop(problem, after, parent, pos, old_hop));
            assert(nodes.contains_key(parent));
        }
    }
    assert forall|e: OpenEntry| #[trigger] open.contains(e) implies {
        &&& after.contains_key(e.pos)
        &&& after[e.pos].g <= e.g
        &&& e.f == arith::clamp_u32(e.g + estimate(e.pos))
    } by {
        if e != entry {
            assert(queue.contains(e));
        }
    }
    assert(open.contains(entry));
    assert forall|pos: BlockPos| #[trigger]
        after.contains_key(pos) && pos != current implies pending(after, open, pos) || settled(
        problem,
        after,
        finishes,
        pos,
    ) by {
        if pos == to {
            assert(open.contains(entry) && entry.pos == pos && entry.g == after[pos].g);
        } else {
            assert(nodes.contains_key(pos));
            if pending(nodes, queue, pos) {
                let e = choose|e: OpenEntry| #[trigger]
                    queue.contains(e) && e.pos == pos && e.g == nodes[pos].g;
                assert(open.contains(e));
            } else {
                assert forall|h: Hop| #[trigger] problem.legal(pos, h) implies covered(
                    problem,
                    after,
                    pos,
                    h,
                ) by {
                    assert(covered(problem, nodes, pos, h));
                }
            }
        }
    }
    assert forall|h: Hop| #[trigger]
        problem.legal(current, h) && hop_before(h, hop.rule, hop.choice + 1) implies covered(
        problem,
        after,
        current,
        h,
    ) by {
        if hop_before(h, hop.rule, hop.choice) {
            assert(covered(problem, nodes, current, h));
        } else {
            assert(h == hop);
        }
    }
}

/// Taking an entry leaves every other node's pending entry in the queue; a
/// stale entry leaves its own node's too.
pub proof fn lemma_take(
    nodes: Map<BlockPos, NodeData>,
    queue: Multiset<OpenEntry>,
    estimate: spec_fn(BlockPos) -> Cost,
    taken: OpenEntry,
)
    requires
        queue.contains(taken),
        queue_sound(nodes, queue, estimate),
    ensures
        queue.remove(taken).len() == queue.len() - 1,
        queue_sound(nodes, queue.remove(taken), estimate),
        nodes.contains_key(taken.pos),
        forall|pos: BlockPos|
            (pos != taken.pos || taken.g != nodes[pos].g) ==> #[trigger] pending(
                nodes,
                queue.remove(taken),
                pos,
            ) == pending(nodes, queue, pos),
{
    broadcast use vstd::multiset::group_multiset_axioms;

    let rest = queue.remove(taken);
    assert forall|e: OpenEntry| #[trigger] rest.contains(e) implies queue.contains(e) by {}
    assert forall|e: OpenEntry| #[trigger] queue.contains(e) && e != taken implies rest.contains(
        e,
    ) by {}
    assert forall|pos: BlockPos| (pos != taken.pos || taken.g != nodes[pos].g) implies #[trigger] pending(
        nodes,
        rest,
        pos,
    ) == pending(nodes, queue, pos) by {
        if pending(nodes, queue, pos) {
            let e = choose|e: OpenEntry| #[trigger]
                queue.contains(e) && e.pos == pos && e.g == nodes[pos].g;
            assert(rest.contains(e));
        }
        if pending(nodes, rest, pos) {
            let e = choose|e: OpenEntry| #[trigger]
                rest.contains(e) && e.pos == pos && e.g == nodes[pos].g;
            assert(queue.contains(e));
        }
    }
}

/// Dropping a stale entry keeps the frontier complete.
pub proof fn lemma_drop_stale<M: Move>(
    problem: Problem<M>,
    nodes: Map<BlockPos, NodeData>,
    queue: Multiset<OpenEntry>,
    estimate: spec_fn(BlockPos) -> Cost,
    finishes: spec_fn(BlockPos) -> bool,
    taken: OpenEntry,
)
    requires
        queue.contains(taken),
        queue_sound(nodes, queue, estimate),
        complete(problem, nodes, queue, finishes),
        taken.g != nodes[taken.pos].g,
    ensures
        complete(problem, nodes, queue.remove(taken), finishes),
{
    lemma_take(nodes, queue, estimate, taken);
    assert forall|pos: BlockPos| #[trigger] nodes.contains_key(pos) implies pending(
        nodes,
        queue.remove(taken),
        pos,
    ) || settled(problem, nodes, finishes, pos) by {}
}

/// A current node that does not finish can start its expansion.
pub proof fn lemma_start_expansion<M: Move>(
    problem: Problem<M>,
    nodes: Map<BlockPos, NodeData>,
    queue: Multiset<OpenEntry>,
    estimate: spec_fn(BlockPos) -> Cost,
    finishes: spec_fn(BlockPos) -> bool,
    taken: OpenEntry,
)
    requires
        queue.contains(taken),
        queue_sound(nodes, queue, estimate),
        complete(problem, nodes, queue, finishes),
        !finishes(taken.pos),
    ensures
        expanding(problem, nodes, queue.remove(taken), finishes, taken.pos, 0, 0),
{
    lemma_take(nodes, queue, estimate, taken);
    assert forall|pos: BlockPos| #[trigger]
        nodes.contains_key(pos) && pos != taken.pos implies pending(
        nodes,
        queue.remove(taken),
        pos,
    ) || settled(problem, nodes, finishes, pos) by {}
    assert forall|hop: Hop| #[trigger] problem.legal(taken.pos, hop) implies !hop_before(
        hop,
        0,
        0,
    ) by {}
}

/// A walk either stays among reached nodes at no more than its own cost, or
/// passes through a pending node at no more than its cost up to there.
proof fn lemma_walk_meets_frontier<M: Move>(
    problem: Problem<M>,
    start: BlockPos,
    nodes: Map<BlockPos, NodeData>,
    queue: Multiset<OpenEntry>,
    finishes: spec_fn(BlockPos) -> bool,
    hops: Seq<Hop>,
)
    requires
        rooted(nodes, start),
        complete(problem, nodes, queue, finishes),
        problem.walkable(start, hops),
    ensures
        ({
            ||| nodes.contains_key(problem.end(start, hops)) && nodes[problem.end(start, hops)].g
                <= problem.length(start, hops)
            ||| exists|at: int|
                0 <= at < hops.len() && waits_at(problem, start, nodes, queue, hops, at)
        }),
    decreases hops.len(),
{
    if hops.len() > 0 {
        let shorter = hops.drop_last();
        lemma_walk_meets_frontier(problem, start, nodes, queue, finishes, shorter);
        let m = problem.end(start, shorter);
        if exists|at: int|
            0 <= at < shorter.len() && waits_at(problem, start, nodes, queue, shorter, at) {
            let at = choose|at: int|
                0 <= at < shorter.len() && waits_at(problem, start, nodes, queue, shorter, at);
            assert(shorter.take(at) =~= hops.take(at));
            assert(waits_at(problem, start, nodes, queue, hops, at));
        } else if pending(nodes, queue, m) {
            let at = hops.len() - 1;
            assert(hops.take(at) =~= shorter);
            assert(waits_at(problem, start, nodes, queue, hops, at));
        } else {
            assert(covered(problem, nodes, m, hops.last()));
        }
    }
}

/// Whether the walk's position after `at` hops is pending at no more than the
/// walk's cost so far.
pub open spec fn waits_at<M: Move>(
    problem: Problem<M>,
    start: BlockPos,
    nodes: Map<BlockPos, NodeData>,
    queue: Multiset<OpenEntry>,
    hops: Seq<Hop>,
    at: int,
) -> bool {
    let pos = problem.end(start, hops.take(at));
    &&& nodes.contains_key(pos)
    &&& pending(nodes, queue, pos)
    &&& nodes[pos].g <= problem.length(start, hops.take(at))
}

/// With an empty queue nothing reachable finishes.
pub proof fn lemma_exhausted<M: Move>(
    problem: Problem<M>,
    start: BlockPos,
    nodes: Map<BlockPos, NodeData>,
    queue: Multiset<OpenEntry>,
    finishes: spec_fn(BlockPos) -> bool,
    hops: Seq<Hop>,
)
    requires
        rooted(nodes, start),
        complete(problem, nodes, queue, finishes),
        queue.len() == 0,
        problem.walkable(start, hops),
    ensures
        nodes.contains_key(problem.end(start, hops)),
        !finishes(problem.end(start, hops)),
{
    assert forall|entry: OpenEntry| !queue.contains(entry) by {
        vstd::multiset::lemma_multiset_empty_len(queue);
    }
    lemma_walk_meets_frontier(problem, start, nodes, queue, finishes, hops);
    assert(!pending(nodes, queue, problem.end(start, hops)));
}

/// A finishing node taken from the front of the queue is a cheapest one,
/// provided the estimate is admissible.
pub proof fn lemma_first_finish_is_optimal<M: Move, G: Goal + ?Sized>(
    problem: Problem<M>,
    start: BlockPos,
    nodes: Map<BlockPos, NodeData>,
    queue: Multiset<OpenEntry>,
    goal: &G,
    guided: bool,
    taken: OpenEntry,
)
    requires
        rooted(nodes, start),
        complete(problem, nodes, queue, |pos: BlockPos| problem.finishes(goal, pos)),
        queue_sound(nodes, queue, |pos: BlockPos| problem.estimate(goal, guided, pos)),
        queue.contains(taken),
        forall|entry: OpenEntry| #[trigger]
            queue.contains(entry) ==> frontier::entry_le(taken, entry),
        problem.admissible(goal, guided),
    ensures
        problem.optimal(goal, start, taken.g),
{
    let finishes = |pos: BlockPos| problem.finishes(goal, pos);
    assert forall|hops: Seq<Hop>|
        problem.walkable(start, hops) && problem.finishes(
            goal,
            #[trigger] problem.end(start, hops),
        ) implies taken.g <= problem.length(start, hops) by {
        lemma_walk_meets_frontier(problem, start, nodes, queue, finishes, hops);
        let last = problem.end(start, hops);
        let n = hops.len() as int;
        let at = if exists|at: int|
            0 <= at < hops.len() && waits_at(problem, start, nodes, queue, hops, at) {
            choose|at: int|
                0 <= at < hops.len() && waits_at(problem, start, nodes, queue, hops, at)
        } else {
            assert(hops.take(n) =~= hops);
            assert(finishes(last));
            assert(waits_at(problem, start, nodes, queue, hops, n));
            n
        };
        let pos = problem.end(start, hops.take(at));
        problem.lemma_cut(start, hops, at);
        assert(problem.estimate(goal, guided, pos) <= problem.length(pos, hops.skip(at))) by {
            assert(problem.finishes(goal, problem.end(pos, hops.skip(at))));
        }
        let entry = choose|e: OpenEntry| #[trigger]
            queue.contains(e) && e.pos == pos && e.g == nodes[pos].g;
        assert(queue.contains(entry));
        assert(frontier::entry_le(taken, entry));
        assert(taken.f == arith::clamp_u32(
            taken.g + problem.estimate(goal, guided, taken.pos),
        ));
    }
}

/// Every reached node is the end of a walk.
pub proof fn lemma_reached<M: Move>(
    problem: Problem<M>,
    start: BlockPos,
    nodes: Map<BlockPos, NodeData>,
    stamps: Map<BlockPos, nat>,
    pos: BlockPos,
) -> (hops: Seq<Hop>)
    requires
        rooted(nodes, start),
        linked(problem, start, nodes, stamps),
        nodes.contains_key(pos),
    ensures
        problem.walkable(start, hops),
        problem.end(start, hops) == pos,
    decreases nodes[pos].g, stamps[pos],
{
    if pos == start {
        Seq::empty()
    } else {
        assert(linked_at(problem, nodes, stamps, pos)) by {
            reveal(linked);
        }
        let parent = nodes[pos].parent->0;
        let hop = choose|hop: Hop| #[trigger] reached_by_hop(problem, nodes, parent, pos, hop);
        let before = lemma_reached(problem, start, nodes, stamps, parent);
        problem.lemma_push(start, before, hop);
        before.push(hop)
    }
}

/// A current node at the front of the queue has been reached as cheaply as can
/// be, provided the estimate is consistent and costs fit their range.
pub proof fn lemma_front_is_cheapest<M: Move, G: Goal + ?Sized>(
    problem: Problem<M>,
    start: BlockPos,
    nodes: Map<BlockPos, NodeData>,
    stamps: Map<BlockPos, nat>,
    queue: Multiset<OpenEntry>,
    goal: &G,
    guided: bool,
    taken: OpenEntry,
)
    requires
        rooted(nodes, start),
        linked(problem, start, nodes, stamps),
        complete(problem, nodes, queue, |pos: BlockPos| problem.finishes(goal, pos)),
        queue_sound(nodes, queue, |pos: BlockPos| problem.estimate(goal, guided, pos)),
        queue.contains(taken),
        forall|entry: OpenEntry| #[trigger]
            queue.contains(entry) ==> frontier::entry_le(taken, entry),
        taken.g == nodes[taken.pos].g,
        problem.consistent(goal, guided),
    ensures
        taken.f < Cost::MAX ==> problem.cheapest(start, taken.pos, taken.g as int),
        taken.f == Cost::MAX ==> problem.overflows(goal, guided, start),
{
    let finishes = |pos: BlockPos| problem.finishes(goal, pos);
    let ahead = problem.estimate(goal, guided, taken.pos);
    assert(taken.f == arith::clamp_u32(taken.g + ahead));
    assert forall|hops: Seq<Hop>|
        problem.walkable(start, hops) && #[trigger] problem.end(start, hops)
            == taken.pos implies taken.f <= problem.length(start, hops) + ahead by {
        lemma_walk_meets_frontier(problem, start, nodes, queue, finishes, hops);
        if exists|at: int|
            0 <= at < hops.len() && waits_at(problem, start, nodes, queue, hops, at) {
            let at = choose|at: int|
                0 <= at < hops.len() && waits_at(problem, start, nodes, queue, hops, at);
            let pos = problem.end(start, hops.take(at));
            problem.lemma_cut(start, hops, at);
            problem.lemma_estimate_along_walk(goal, guided, pos, hops.skip(at));
            let entry = choose|e: OpenEntry| #[trigger]
                queue.contains(e) && e.pos == pos && e.g == nodes[pos].g;
            assert(queue.contains(entry));
            assert(frontier::entry_le(taken, entry));
        }
    }
    let reached = lemma_reached(problem, start, nodes, stamps, taken.pos);
    assert(problem.walkable(start, reached));
}

/// Whether `path` follows the parents of `nodes` from `start` to `end`.
pub open spec fn traces(
    nodes: Map<BlockPos, NodeData>,
    start: BlockPos,
    end: BlockPos,
    path: Seq<PathNode>,
) -> bool {
    &&& path.len() > 0
    &&& path[0] == (PathNode { pos: start, reached_by: MoveKind::Start })
    &&& path.last().pos == end
    &&& forall|i: int| 0 < i < path.len() ==> trace_step(nodes, path, i)
}

pub open spec fn trace_step(nodes: Map<BlockPos, NodeData>, path: Seq<PathNode>, i: int) -> bool {
    &&& nodes.contains_key(path[i].pos)
    &&& nodes[path[i].pos].parent == Some(path[i - 1].pos)
    &&& nodes[path[i].pos].reached_by == path[i].reached_by
}

/// Parents lead back to the start in one way only.
pub proof fn lemma_one_trace(
    nodes: Map<BlockPos, NodeData>,
    start: BlockPos,
    end: BlockPos,
    path: Seq<PathNode>,
    other: Seq<PathNode>,
)
    requires
        rooted(nodes, start),
        traces(nodes, start, end, path),
        traces(nodes, start, end, other),
    ensures
        path == other,
    decreases path.len(),
{
    let n = path.len() - 1;
    let m = other.len() - 1;
    assert(n > 0 ==> trace_step(nodes, path, n));
    assert(m > 0 ==> trace_step(nodes, other, m));
    if n > 0 && m > 0 {
        let shorter = path.drop_last();
        let fewer = other.drop_last();
        assert forall|i: int| 0 < i < shorter.len() implies trace_step(nodes, shorter, i) by {
            assert(trace_step(nodes, path, i));
        }
        assert forall|i: int| 0 < i < fewer.len() implies trace_step(nodes, fewer, i) by {
            assert(trace_step(nodes, other, i));
        }
        lemma_one_trace(nodes, start, path[n - 1].pos, shorter, fewer);
        assert(path[n] == other[m]);
        assert(path =~= shorter.push(path[n]));
        assert(other =~= fewer.push(other[m]));
    } else {
        assert(path =~= other);
    }
}

/// Whether `path` lists the positions and move kinds of the walk `hops`.
pub open spec fn realizes<M: Move>(
    problem: Problem<M>,
    start: BlockPos,
    path: Seq<PathNode>,
    hops: Seq<Hop>,
) -> bool {
    &&& path.len() == hops.len() + 1
    &&& path[0] == (PathNode { pos: start, reached_by: MoveKind::Start })
    &&& problem.walkable(start, hops)
    &&& forall|i: int| 0 < i < path.len() ==> realizes_step(problem, start, path, hops, i)
}

pub open spec fn realizes_step<M: Move>(
    problem: Problem<M>,
    start: BlockPos,
    path: Seq<PathNode>,
    hops: Seq<Hop>,
    i: int,
) -> bool {
    &&& path[i].pos == problem.end(start, hops.take(i))
    &&& path[i].reached_by == problem.edge(problem.end(start, hops.take(i - 1)), hops[i - 1]).kind
}

/// Whether the metadata recorded for node `i` of a path accounts for its hop.
pub open spec fn accounts_step<M: Move>(
    problem: Problem<M>,
    nodes: Map<BlockPos, NodeData>,
    path: Seq<PathNode>,
    hops: Seq<Hop>,
    i: int,
) -> bool {
    let from = path[i - 1].pos;
    nodes[path[i].pos].metadata == problem.account(
        from,
        hops[i - 1].rule,
        problem.edge(from, hops[i - 1]),
    )
}

/// A traced path is a walk that costs no more than its last node records, and
/// its nodes record the metadata of its hops.
pub proof fn lemma_trace_is_walk<M: Move>(
    problem: Problem<M>,
    start: BlockPos,
    nodes: Map<BlockPos, NodeData>,
    stamps: Map<BlockPos, nat>,
    end: BlockPos,
    path: Seq<PathNode>,
) -> (hops: Seq<Hop>)
    requires
        rooted(nodes, start),
        linked(problem, start, nodes, stamps),
        traces(nodes, start, end, path),
    ensures
        realizes(problem, start, path, hops),
        problem.end(start, hops) == end,
        arith::clamp_u32(problem.length(start, hops)) <= nodes[end].g,
        forall|i: int| 0 < i < path.len() ==> accounts_step(problem, nodes, path, hops, i),
    decreases path.len(),
{
    if path.len() == 1 {
        Seq::<Hop>::empty()
    } else {
        let n = path.len() - 1;
        let shorter = path.drop_last();
        let parent = path[n - 1].pos;
        assert(trace_step(nodes, path, n));
        assert forall|i: int| 0 < i < shorter.len() implies trace_step(nodes, shorter, i) by {
            assert(trace_step(nodes, path, i));
        }
        let before = lemma_trace_is_walk(problem, start, nodes, stamps, parent, shorter);
        assert(end != start);
        assert(linked_at(problem, nodes, stamps, end)) by {
            reveal(linked);
        }
        let hop = choose|hop: Hop| #[trigger] reached_by_hop(problem, nodes, parent, end, hop);
        let hops = before.push(hop);
        problem.lemma_push(start, before, hop);
        assert forall|i: int| 0 < i < path.len() implies realizes_step(
            problem,
            start,
            path,
            hops,
            i,
        ) by {
            if i < n {
                assert(realizes_step(problem, start, shorter, before, i));
                assert(hops.take(i) =~= before.take(i));
                assert(hops.take(i - 1) =~= before.take(i - 1));
            } else {
                assert(hops.take(n) =~= hops);
                assert(hops.take(n - 1) =~= before);
            }
        }
        assert forall|i: int| 0 < i < path.len() implies accounts_step(
            problem,
            nodes,
            path,
            hops,
            i,
        ) by {
            if i < n {
                assert(accounts_step(problem, nodes, shorter, before, i));
                assert(hops[i - 1] == before[i - 1]);
            }
        }
        problem.lemma_length_nonneg(start, before);
        hops
    }
}

/// Whether the walk's position after `at` hops is known at no more than the
/// walk's cost so far.
pub open spec fn known_along<M: Move>(
    problem: Problem<M>,
    start: BlockPos,
    nodes: Map<BlockPos, NodeData>,
    trail: Seq<Hop>,
    at: int,
) -> bool {
    let pos = problem.end(start, trail.take(at));
    nodes.contains_key(pos) && nodes[pos].g <= arith::clamp_u32(
        problem.length(start, trail.take(at)),
    )
}

/// Every node was reached at its cost by a trail that comes to no position
/// twice and runs along known nodes.
#[verifier::opaque]
pub open spec fn attained<M: Move>(
    problem: Problem<M>,
    start: BlockPos,
    nodes: Map<BlockPos, NodeData>,
    trails: Map<BlockPos, Seq<Hop>>,
) -> bool {
    forall|pos: BlockPos| #[trigger]
        nodes.contains_key(pos) ==> attains(problem, start, nodes, pos, trails[pos])
}

pub open spec fn attains<M: Move>(
    problem: Problem<M>,
    start: BlockPos,
    nodes: Map<BlockPos, NodeData>,
    pos: BlockPos,
    trail: Seq<Hop>,
) -> bool {
    &&& problem.arrives(start, pos, nodes[pos].g, trail)
    &&& forall|at: int|
        0 <= at <= trail.len() ==> #[trigger] known_along(problem, start, nodes, trail, at)
}

/// Every examination had its own position and cost, which a walk arrives with. A
/// node examined at its current cost does not wait for another one.
#[verifier::opaque]
pub open spec fn tallied<M: Move>(
    problem: Problem<M>,
    start: BlockPos,
    nodes: Map<BlockPos, NodeData>,
    queue: Multiset<OpenEntry>,
    visits: Set<(BlockPos, Cost)>,
) -> bool {
    &&& visits.finite()
    &&& queued_once(queue)
    &&& forall|pos: BlockPos, g: Cost| #[trigger]
        visits.contains((pos, g)) ==> {
            &&& nodes.contains_key(pos)
            &&& nodes[pos].g <= g
            &&& nodes[pos].g == g ==> !pending(nodes, queue, pos)
            &&& exists|hops: Seq<Hop>| #[trigger] problem.arrives(start, pos, g, hops)
        }
}

/// A cheaper arrival extends the trail of the node it came from.
proof fn lemma_improve_attained<M: Move>(
    problem: Problem<M>,
    start: BlockPos,
    nodes: Map<BlockPos, NodeData>,
    trails: Map<BlockPos, Seq<Hop>>,
    current: BlockPos,
    hop: Hop,
    data: NodeData,
)
    requires
        attained(problem, start, nodes, trails),
        nodes.contains_key(current),
        problem.legal(current, hop),
        data.g == arith::clamp_u32(nodes[current].g + problem.price(current, hop)),
        nodes.contains_key(problem.edge(current, hop).to) ==> data.g
            < nodes[problem.edge(current, hop).to].g,
    ensures
        attained(
            problem,
            start,
            nodes.insert(problem.edge(current, hop).to, data),
            trails.insert(problem.edge(current, hop).to, trails[current].push(hop)),
        ),
{
    reveal(attained);
    let to = problem.edge(current, hop).to;
    let after = nodes.insert(to, data);
    let trail = trails[current];
    let longer = trail.push(hop);
    let n = trail.len() as int;
    assert(attains(problem, start, nodes, current, trail));
    problem.lemma_push(start, trail, hop);
    problem.lemma_length_nonneg(start, trail);
    assert(longer.take(n + 1) =~= longer);
    assert forall|i: int| 0 <= i <= n implies #[trigger] problem.end(start, longer.take(i)) != to
        && known_along(problem, start, after, longer, i) by {
        assert(longer.take(i) =~= trail.take(i));
        assert(known_along(problem, start, nodes, trail, i));
        problem.lemma_cut(start, trail, i);
        problem.lemma_length_nonneg(problem.end(start, trail.take(i)), trail.skip(i));
    }
    assert(problem.simple(start, longer)) by {
        assert forall|i: int, j: int| 0 <= i < j <= longer.len() implies #[trigger] problem.end(
            start,
            longer.take(i),
        ) != #[trigger] problem.end(start, longer.take(j)) by {
            assert(longer.take(i) =~= trail.take(i));
            if j <= n {
                assert(longer.take(j) =~= trail.take(j));
            }
        }
    }
    assert forall|pos: BlockPos| #[trigger] after.contains_key(pos) implies attains(
        problem,
        start,
        after,
        pos,
        trails.insert(to, longer)[pos],
    ) by {
        if pos == to {
            assert forall|at: int| 0 <= at <= longer.len() implies #[trigger] known_along(
                problem,
                start,
                after,
                longer,
                at,
            ) by {
                assert(at <= n ==> problem.end(start, longer.take(at)) != to);
            }
        } else {
            assert(attains(problem, start, nodes, pos, trails[pos]));
            assert forall|at: int| 0 <= at <= trails[pos].len() implies #[trigger] known_along(
                problem,
                start,
                after,
                trails[pos],
                at,
            ) by {
                assert(known_along(problem, start, nodes, trails[pos], at));
            }
        }
    }
}

/// Recording a cheaper arrival keeps the tally of examinations.
proof fn lemma_improve_tallied<M: Move>(
    problem: Problem<M>,
    start: BlockPos,
    nodes: Map<BlockPos, NodeData>,
    queue: Multiset<OpenEntry>,
    visits: Set<(BlockPos, Cost)>,
    estimate: spec_fn(BlockPos) -> Cost,
    data: NodeData,
    entry: OpenEntry,
)
    requires
        tallied(problem, start, nodes, queue, visits),
        queue_sound(nodes, queue, estimate),
        nodes.contains_key(entry.pos) ==> data.g < nodes[entry.pos].g,
        entry.g == data.g,
    ensures
        tallied(problem, start, nodes.insert(entry.pos, data), queue.insert(entry), visits),
{
    reveal(tallied);
    lemma_queued_once(nodes, queue, estimate, data, entry);
    assert forall|pos: BlockPos, g: Cost| #[trigger]
        visits.contains((pos, g)) && nodes.insert(entry.pos, data)[pos].g
            == g implies !pending(
        nodes.insert(entry.pos, data),
        queue.insert(entry),
        pos,
    ) by {
        assert(nodes[pos].g <= g);
    }
}

/// Dropping queue entries keeps the tally of examinations.
pub proof fn lemma_drop_tallied<M: Move>(
    problem: Problem<M>,
    start: BlockPos,
    nodes: Map<BlockPos, NodeData>,
    queue: Multiset<OpenEntry>,
    rest: Multiset<OpenEntry>,
    visits: Set<(BlockPos, Cost)>,
)
    requires
        tallied(problem, start, nodes, queue, visits),
        forall|entry: OpenEntry| #[trigger] rest.count(entry) <= queue.count(entry),
    ensures
        tallied(problem, start, nodes, rest, visits),
{
    reveal(tallied);
    assert forall|entry: OpenEntry| #[trigger] rest.contains(entry) implies queue.contains(
        entry,
    ) by {
        assert(rest.count(entry) <= queue.count(entry));
    }
    assert forall|entry: OpenEntry| #[trigger] rest.count(entry) <= 1 by {
        assert(queue.count(entry) <= 1);
    }
    assert forall|pos: BlockPos| !pending(nodes, queue, pos) implies !#[trigger] pending(
        nodes,
        rest,
        pos,
    ) by {
        if pending(nodes, rest, pos) {
            let e = choose|e: OpenEntry| #[trigger]
                rest.contains(e) && e.pos == pos && e.g == nodes[pos].g;
            assert(queue.contains(e));
        }
    }
}

/// Examining a current entry adds to the tally.
pub proof fn lemma_visit<M: Move>(
    problem: Problem<M>,
    start: BlockPos,
    nodes: Map<BlockPos, NodeData>,
    trails: Map<BlockPos, Seq<Hop>>,
    queue: Multiset<OpenEntry>,
    visits: Set<(BlockPos, Cost)>,
    taken: OpenEntry,
)
    requires
        tallied(problem, start, nodes, queue, visits),
        attained(problem, start, nodes, trails),
        queue.contains(taken),
        nodes.contains_key(taken.pos),
        taken.g == nodes[taken.pos].g,
    ensures
        tallied(
            problem,
            start,
            nodes,
            queue.remove(taken),
            visits.insert((taken.pos, taken.g)),
        ),
        !visits.contains((taken.pos, taken.g)),
        visits.insert((taken.pos, taken.g)).len() == visits.len() + 1,
{
    reveal(tallied);
    reveal(attained);
    lemma_taken_once(nodes, queue, taken);
    assert(problem.arrives(start, taken.pos, taken.g, trails[taken.pos]));
}

/// More examinations than `limit` show more than `limit` ways to arrive.
pub proof fn lemma_many_visits<M: Move>(
    problem: Problem<M>,
    start: BlockPos,
    nodes: Map<BlockPos, NodeData>,
    queue: Multiset<OpenEntry>,
    visits: Set<(BlockPos, Cost)>,
    limit: nat,
)
    requires
        tallied(problem, start, nodes, queue, visits),
        limit < visits.len(),
    ensures
        !problem.few_arrivals(start, limit),
{
    reveal(tallied);
    if problem.few_arrivals(start, limit) {
        let arrivals = choose|arrivals: Set<(BlockPos, Cost)>| #[trigger]
            problem.lists_arrivals(start, arrivals) && arrivals.finite() && arrivals.len()
                <= limit;
        assert forall|visit: (BlockPos, Cost)| visits.contains(visit) implies arrivals.contains(
            visit,
        ) by {
            assert(visits.contains((visit.0, visit.1)));
        }
        vstd::set_lib::lemma_len_subset(visits, arrivals);
    }
}

/// The nodes, queue and caches of one search.
pub struct Tree {
    pub nodes: PosMap<NodeData>,
    /// Reopening a node queues a new entry; entries with an outdated cost are
    /// skipped when they surface.
    pub open: Frontier,
    pub lava_risks: PosMap<Cost>,
    pub terrain_costs: PosMap<Cost>,
    /// When each node was last recorded.
    pub stamps: Ghost<Map<BlockPos, nat>>,
    pub now: Ghost<nat>,
    /// The nodes taken from the queue so far, and the estimate of the last one.
    pub examined: Ghost<Set<BlockPos>>,
    pub level: Ghost<Cost>,
    /// How each node was reached at the cost it has.
    pub trails: Ghost<Map<BlockPos, Seq<Hop>>>,
    /// The positions examined so far, each with the costs it had then.
    pub visits: Ghost<Set<(BlockPos, Cost)>>,
}

/// Cached risks and tolls are the true ones.
pub open spec fn caches_true<M: Move>(
    problem: Problem<M>,
    risks: Map<BlockPos, Cost>,
    costs: Map<BlockPos, Cost>,
) -> bool {
    &&& forall|pos: BlockPos| #[trigger]
        risks.contains_key(pos) ==> risks[pos] == tolls::lava_danger(
            problem.terrain,
            pos,
            &problem.ctx,
        )
    &&& forall|pos: BlockPos| #[trigger]
        costs.contains_key(pos) ==> costs[pos] == problem.toll(pos)
}

/// Every node known before is still known, at no greater cost.
pub open spec fn refines(
    before: Map<BlockPos, NodeData>,
    after: Map<BlockPos, NodeData>,
) -> bool {
    forall|pos: BlockPos| #[trigger]
        before.contains_key(pos) ==> after.contains_key(pos) && after[pos].g <= before[pos].g
}

/// What is known once a hop of `current` has been considered: a cheaper arrival
/// replaces what was known of its end.
pub open spec fn told<M: Move>(
    problem: Problem<M>,
    nodes: Map<BlockPos, NodeData>,
    current: BlockPos,
    hop: Hop,
) -> Map<BlockPos, NodeData> {
    let edge = problem.edge(current, hop);
    let g = arith::clamp_u32(nodes[current].g + problem.price(current, hop));
    if problem.legal(current, hop) && !(nodes.contains_key(edge.to) && nodes[edge.to].g <= g) {
        nodes.insert(
            edge.to,
            NodeData {
                g,
                parent: Some(current),
                reached_by: edge.kind,
                metadata: problem.account(current, hop.rule, edge),
            },
        )
    } else {
        nodes
    }
}

/// What is known once the first `choices` hops of a rule have been considered.
pub open spec fn told_by_rule<M: Move>(
    problem: Problem<M>,
    nodes: Map<BlockPos, NodeData>,
    current: BlockPos,
    rule: int,
    choices: nat,
) -> Map<BlockPos, NodeData>
    decreases choices,
{
    if choices == 0 {
        nodes
    } else {
        let last = (choices - 1) as nat;
        told(
            problem,
            told_by_rule(problem, nodes, current, rule, last),
            current,
            Hop { rule, choice: last as int },
        )
    }
}

/// What is known once all hops of the first `rules` rules have been considered.
pub open spec fn told_by_rules<M: Move>(
    problem: Problem<M>,
    nodes: Map<BlockPos, NodeData>,
    current: BlockPos,
    rules: nat,
) -> Map<BlockPos, NodeData>
    decreases rules,
{
    if rules == 0 {
        nodes
    } else {
        let last = (rules - 1) as nat;
        told_by_rule(
            problem,
            told_by_rules(problem, nodes, current, last),
            current,
            last as int,
            problem.menu(current, last as int).len(),
        )
    }
}

/// What is known once `current` has been expanded.
pub open spec fn spread<M: Move>(
    problem: Problem<M>,
    nodes: Map<BlockPos, NodeData>,
    current: BlockPos,
) -> Map<BlockPos, NodeData> {
    told_by_rules(problem, nodes, current, problem.moves.len())
}

/// Whether a node is new or known at a lower cost than before.
pub open spec fn improved(
    before: Map<BlockPos, NodeData>,
    after: Map<BlockPos, NodeData>,
    pos: BlockPos,
) -> bool {
    !before.contains_key(pos) || after[pos].g < before[pos].g
}

/// The nodes pending afterwards are those that were pending and those improved
/// since.
#[verifier::opaque]
pub open spec fn pending_anew(
    nodes: Map<BlockPos, NodeData>,
    queue: Multiset<OpenEntry>,
    after: Map<BlockPos, NodeData>,
    open: Multiset<OpenEntry>,
) -> bool {
    forall|pos: BlockPos| #[trigger]
        after.contains_key(pos) ==> pending(after, open, pos) == (improved(nodes, after, pos)
            || pending(nodes, queue, pos))
}

proof fn lemma_still_pending(nodes: Map<BlockPos, NodeData>, queue: Multiset<OpenEntry>)
    ensures
        pending_anew(nodes, queue, nodes, queue),
{
    reveal(pending_anew);
}

proof fn lemma_pending_since(
    nodes: Map<BlockPos, NodeData>,
    queue: Multiset<OpenEntry>,
    between: Map<BlockPos, NodeData>,
    open: Multiset<OpenEntry>,
    after: Map<BlockPos, NodeData>,
    last: Multiset<OpenEntry>,
)
    requires
        pending_anew(nodes, queue, between, open),
        pending_anew(between, open, after, last),
        refines(nodes, between),
        refines(between, after),
    ensures
        pending_anew(nodes, queue, after, last),
{
    reveal(pending_anew);
    assert forall|pos: BlockPos| #[trigger] after.contains_key(pos) implies pending(
        after,
        last,
        pos,
    ) == (improved(nodes, after, pos) || pending(nodes, queue, pos)) by {
        if between.contains_key(pos) {
            if nodes.contains_key(pos) {
                assert(between[pos].g <= nodes[pos].g);
            }
            assert(after[pos].g <= between[pos].g);
        } else {
            assert(!nodes.contains_key(pos));
        }
    }
}

proof fn lemma_improve_pending(
    nodes: Map<BlockPos, NodeData>,
    queue: Multiset<OpenEntry>,
    data: NodeData,
    entry: OpenEntry,
)
    requires
        entry.g == data.g,
        nodes.contains_key(entry.pos) ==> data.g < nodes[entry.pos].g,
    ensures
        pending_anew(nodes, queue, nodes.insert(entry.pos, data), queue.insert(entry)),
{
    broadcast use vstd::multiset::group_multiset_axioms;

    reveal(pending_anew);
    let after = nodes.insert(entry.pos, data);
    let open = queue.insert(entry);
    assert(open.contains(entry));
    assert forall|pos: BlockPos| #[trigger] after.contains_key(pos) implies pending(
        after,
        open,
        pos,
    ) == (improved(nodes, after, pos) || pending(nodes, queue, pos)) by {
        if pos == entry.pos {
            assert(open.contains(entry) && entry.pos == pos && entry.g == after[pos].g);
        } else {
            if pending(nodes, queue, pos) {
                let e = choose|e: OpenEntry| #[trigger]
                    queue.contains(e) && e.pos == pos && e.g == nodes[pos].g;
                assert(open.contains(e));
            }
            if pending(after, open, pos) {
                let e = choose|e: OpenEntry| #[trigger]
                    open.contains(e) && e.pos == pos && e.g == after[pos].g;
                assert(e != entry);
                assert(queue.contains(e));
            }
        }
    }
}

/// When some node is pending, some entry comes up next.
pub proof fn lemma_some_next_up(
    nodes: Map<BlockPos, NodeData>,
    queue: Multiset<OpenEntry>,
    pos: BlockPos,
) -> (entry: OpenEntry)
    requires
        pending(nodes, queue, pos),
    ensures
        next_up(nodes, queue, entry),
    decreases queue.len(),
{
    broadcast use vstd::multiset::group_multiset_axioms;

    let one = choose|e: OpenEntry| #[trigger]
        queue.contains(e) && e.pos == pos && e.g == nodes[pos].g;
    let rest = queue.remove(one);
    assert forall|e: OpenEntry| #[trigger] queue.contains(e) implies e == one || rest.contains(
        e,
    ) by {}
    if exists|e: OpenEntry| #[trigger] rest.contains(e) && e.g == nodes[e.pos].g {
        let other = choose|e: OpenEntry| #[trigger] rest.contains(e) && e.g == nodes[e.pos].g;
        assert(pending(nodes, rest, other.pos));
        let least = lemma_some_next_up(nodes, rest, other.pos);
        assert(rest.contains(least));
        assert(queue.contains(least));
        let first = if frontier::entry_le(one, least) {
            one
        } else {
            least
        };
        assert forall|e: OpenEntry| #[trigger] queue.contains(e) && e.g
            == nodes[e.pos].g implies frontier::entry_le(first, e) by {
            if e != one {
                assert(rest.contains(e));
                assert(frontier::entry_le(least, e));
            }
        }
        first
    } else {
        assert(next_up(nodes, queue, one));
        one
    }
}

/// Recording a cheaper arrival queues it once, and leaves the other nodes that
/// are not pending so.
proof fn lemma_queued_once(
    nodes: Map<BlockPos, NodeData>,
    queue: Multiset<OpenEntry>,
    estimate: spec_fn(BlockPos) -> Cost,
    data: NodeData,
    entry: OpenEntry,
)
    requires
        queue_sound(nodes, queue, estimate),
        queued_once(queue),
        nodes.contains_key(entry.pos) ==> data.g < nodes[entry.pos].g,
        entry.g == data.g,
    ensures
        queued_once(queue.insert(entry)),
        forall|pos: BlockPos|
            pos != entry.pos && !pending(nodes, queue, pos) ==> !#[trigger] pending(
                nodes.insert(entry.pos, data),
                queue.insert(entry),
                pos,
            ),
{
    broadcast use vstd::multiset::group_multiset_axioms;

    let after = queue.insert(entry);
    assert(!queue.contains(entry));
    assert forall|e: OpenEntry| #[trigger] after.contains(e) implies e == entry || queue.contains(
        e,
    ) by {}
    assert forall|e: OpenEntry| #[trigger] after.count(e) <= 1 by {
        assert(queue.count(e) <= 1);
    }
    assert forall|a: OpenEntry, b: OpenEntry|
        #[trigger] after.contains(a) && #[trigger] after.contains(b) && a.pos == b.pos && a.g
            == b.g implies a == b by {
        assert(a == entry || queue.contains(a));
        assert(b == entry || queue.contains(b));
    }
    assert forall|pos: BlockPos| pos != entry.pos && !pending(nodes, queue, pos) implies !#[trigger] pending(
        nodes.insert(entry.pos, data),
        after,
        pos,
    ) by {
        if pending(nodes.insert(entry.pos, data), after, pos) {
            let e = choose|e: OpenEntry| #[trigger]
                after.contains(e) && e.pos == pos && e.g == nodes.insert(entry.pos, data)[pos].g;
            assert(queue.contains(e));
        }
    }
}

/// Taking a current entry leaves its node no longer pending, and the others
/// that were not pending so.
pub proof fn lemma_taken_once(
    nodes: Map<BlockPos, NodeData>,
    queue: Multiset<OpenEntry>,
    taken: OpenEntry,
)
    requires
        queue.contains(taken),
        queued_once(queue),
        taken.g == nodes[taken.pos].g,
    ensures
        queued_once(queue.remove(taken)),
        pending(nodes, queue, taken.pos),
        !pending(nodes, queue.remove(taken), taken.pos),
        forall|pos: BlockPos|
            !pending(nodes, queue, pos) ==> !#[trigger] pending(nodes, queue.remove(taken), pos),
{
    broadcast use vstd::multiset::group_multiset_axioms;

    let rest = queue.remove(taken);
    assert(queue.count(taken) <= 1);
    assert forall|e: OpenEntry| #[trigger] rest.contains(e) implies queue.contains(e) && e
        != taken by {}
    assert forall|e: OpenEntry| #[trigger] rest.count(e) <= 1 by {
        assert(queue.count(e) <= 1);
    }
    assert forall|pos: BlockPos|
        !pending(nodes, queue, pos) || pos == taken.pos implies !#[trigger] pending(
        nodes,
        rest,
        pos,
    ) by {
        if pending(nodes, rest, pos) {
            let e = choose|e: OpenEntry| #[trigger]
                rest.contains(e) && e.pos == pos && e.g == nodes[pos].g;
            assert(queue.contains(e));
        }
    }
}

/// Whether `nodes` are recorded the same in both.
pub open spec fn unmoved(
    fixed: Set<BlockPos>,
    before: Map<BlockPos, NodeData>,
    after: Map<BlockPos, NodeData>,
) -> bool {
    forall|pos: BlockPos| #[trigger] fixed.contains(pos) ==> after[pos] == before[pos]
}

/// Nodes that are not pending were known and not pending before.
pub open spec fn keeps_pending(
    nodes: Map<BlockPos, NodeData>,
    queue: Multiset<OpenEntry>,
    after: Map<BlockPos, NodeData>,
    open: Multiset<OpenEntry>,
) -> bool {
    forall|pos: BlockPos| #[trigger]
        after.contains_key(pos) && !pending(after, open, pos) ==> nodes.contains_key(pos)
            && !pending(nodes, queue, pos)
}

proof fn lemma_improve_keeps_pending(
    nodes: Map<BlockPos, NodeData>,
    queue: Multiset<OpenEntry>,
    data: NodeData,
    entry: OpenEntry,
)
    requires
        entry.g == data.g,
    ensures
        keeps_pending(nodes, queue, nodes.insert(entry.pos, data), queue.insert(entry)),
{
    let after = nodes.insert(entry.pos, data);
    let open = queue.insert(entry);
    assert(open.contains(entry));
    assert forall|pos: BlockPos| #[trigger]
        after.contains_key(pos) && !pending(after, open, pos) implies nodes.contains_key(pos)
        && !pending(nodes, queue, pos) by {
        if pos == entry.pos {
            assert(open.contains(entry) && entry.pos == pos && entry.g == after[pos].g);
        } else if pending(nodes, queue, pos) {
            let e = choose|e: OpenEntry| #[trigger]
                queue.contains(e) && e.pos == pos && e.g == nodes[pos].g;
            assert(open.contains(e));
        }
    }
}

impl Tree {
    /// The structural invariant of a search tree.
    pub open spec fn sound<W: WorldView + ?Sized, G: Goal + ?Sized, M: Move>(
        &self,
        setup: &Setup<'_, W, G, M>,
    ) -> bool {
        &&& rooted(self.nodes@, setup.start)
        &&& linked(setup.problem(), setup.start, self.nodes@, self.stamps@)
        &&& stamped(self.nodes@, self.stamps@, self.now@)
        &&& queue_sound(self.nodes@, self.open@, |pos: BlockPos| setup.estimate(pos))
        &&& tied_by(self.open@, setup.ctx.path_seed)
        &&& attained(setup.problem(), setup.start, self.nodes@, self.trails@)
        &&& tallied(setup.problem(), setup.start, self.nodes@, self.open@, self.visits@)
        &&& caches_true(setup.problem(), self.lava_risks@, self.terrain_costs@)
    }

    /// Whether nothing in the queue undercuts the nodes examined so far, which
    /// were all reached as cheaply as can be and do not come up again.
    pub open spec fn ordered<W: WorldView + ?Sized, G: Goal + ?Sized, M: Move>(
        &self,
        setup: &Setup<'_, W, G, M>,
    ) -> bool {
        &&& self.level@ < Cost::MAX
        &&& self.examined@.finite()
        &&& queued_once(self.open@)
        &&& forall|entry: OpenEntry| #[trigger]
            self.open@.contains(entry) ==> self.level@ <= entry.f
        &&& forall|pos: BlockPos| #[trigger]
            self.examined@.contains(pos) ==> {
                &&& self.nodes@.contains_key(pos)
                &&& self.nodes@[pos].g + setup.estimate(pos) <= self.level@
                &&& setup.problem().cheapest(setup.start, pos, self.nodes@[pos].g as int)
                &&& !pending(self.nodes@, self.open@, pos)
            }
    }

    /// Whether `current` is being expanded in order.
    pub open spec fn in_order<W: WorldView + ?Sized, G: Goal + ?Sized, M: Move>(
        &self,
        setup: &Setup<'_, W, G, M>,
        current: BlockPos,
    ) -> bool {
        &&& setup.problem().consistent(setup.goal, setup.use_heuristic)
        &&& self.ordered(setup)
        &&& self.nodes@[current].g + setup.estimate(current) == self.level@
    }

    /// A tree that holds only the start.
    pub fn plant<W: WorldView + ?Sized, G: Goal + ?Sized, M: Move>(
        setup: &Setup<'_, W, G, M>,
    ) -> (tree: Tree)
        ensures
            tree.sound(setup),
            complete(
                setup.problem(),
                tree.nodes@,
                tree.open@,
                |pos: BlockPos| setup.finishes(pos),
            ),
            tree.nodes@.dom() == set![setup.start],
            pending(tree.nodes@, tree.open@, setup.start),
            tree.ordered(setup),
            tree.visits@ == Set::<(BlockPos, Cost)>::empty(),
            tree.open@ == Multiset::<OpenEntry>::empty().insert(
                ranked(setup.problem(), setup.goal, setup.use_heuristic, setup.start, 0),
            ),
    {
        let start = setup.start;
        let mut nodes: PosMap<NodeData> = PosMap::new();
        nodes.insert(
            start,
            NodeData { g: 0, parent: None, reached_by: MoveKind::Start, metadata: None },
        );
        let mut open = Frontier::new();
        let entry = OpenEntry {
            f: setup.heuristic(start),
            tie: tie_break(start, setup.ctx.path_seed),
            pos: start,
            g: 0,
        };
        open.push(entry);
        let tree = Tree {
            nodes,
            open,
            lava_risks: PosMap::new(),
            terrain_costs: PosMap::new(),
            stamps: Ghost(Map::<BlockPos, nat>::empty().insert(start, 0)),
            now: Ghost(1),
            examined: Ghost(Set::empty()),
            level: Ghost(0),
            trails: Ghost(Map::<BlockPos, Seq<Hop>>::empty().insert(start, Seq::empty())),
            visits: Ghost(Set::empty()),
        };
        proof {
            reveal(linked);
            reveal(attained);
            reveal(tallied);
            assert(attains(setup.problem(), start, tree.nodes@, start, Seq::<Hop>::empty())) by {
                assert forall|at: int| 0 <= at <= 0 implies #[trigger] known_along(
                    setup.problem(),
                    start,
                    tree.nodes@,
                    Seq::<Hop>::empty(),
                    at,
                ) by {
                    assert(Seq::<Hop>::empty().take(at) =~= Seq::<Hop>::empty());
                }
            }
            assert(tree.nodes@.dom() =~= set![start]);
            assert(tree.open@.contains(entry));
            assert forall|e: OpenEntry| #[trigger] tree.open@.contains(e) implies e == entry by {
                assert(Multiset::<OpenEntry>::empty().count(e) == 0);
            }
            assert(tree.open@.contains(entry) && entry.pos == start && entry.g
                == tree.nodes@[start].g);
            assert forall|e: OpenEntry| #[trigger] tree.open@.count(e) <= 1 by {
                assert(Multiset::<OpenEntry>::empty().count(e) == 0);
            }
        }
        tree
    }

    /// The lava danger of `pos`, remembered for the rest of the search.
    pub fn danger_at<W: WorldView + ?Sized, G: Goal + ?Sized, M: Move>(
        &mut self,
        setup: &Setup<'_, W, G, M>,
        pos: BlockPos,
    ) -> (risk: Cost)
        requires
            caches_true(setup.problem(), old(self).lava_risks@, old(self).terrain_costs@),
        ensures
            risk == tolls::lava_danger(setup.problem().terrain, pos, setup.ctx),
            caches_true(setup.problem(), final(self).lava_risks@, final(self).terrain_costs@),
            final(self).nodes == old(self).nodes,
            final(self).open == old(self).open,
            final(self).stamps == old(self).stamps,
            final(self).now == old(self).now,
            final(self).examined == old(self).examined,
            final(self).level == old(self).level,
            final(self).trails == old(self).trails,
            final(self).visits == old(self).visits,
    {
        match setup.ctx.lava_policy {
            LavaPolicy::Penalized => 0,
            LavaPolicy::Forbidden { clearance } => {
                if let Some(risk) = self.lava_risks.get(pos) {
                    return *risk;
                }
                let risk: Cost = lava_risk(pos, setup.world, clearance);
                self.lava_risks.insert(pos, risk);
                risk
            },
        }
    }

    /// The standing toll of `pos`, remembered for the rest of the search.
    fn toll_at<W: WorldView + ?Sized, G: Goal + ?Sized, M: Move>(
        &mut self,
        setup: &Setup<'_, W, G, M>,
        pos: BlockPos,
    ) -> (toll: Cost)
        requires
            caches_true(setup.problem(), old(self).lava_risks@, old(self).terrain_costs@),
        ensures
            toll == setup.problem().toll(pos),
            caches_true(setup.problem(), final(self).lava_risks@, final(self).terrain_costs@),
            final(self).nodes == old(self).nodes,
            final(self).open == old(self).open,
            final(self).stamps == old(self).stamps,
            final(self).now == old(self).now,
            final(self).examined == old(self).examined,
            final(self).level == old(self).level,
            final(self).trails == old(self).trails,
            final(self).visits == old(self).visits,
    {
        if let Some(toll) = self.terrain_costs.get(pos) {
            return *toll;
        }
        let toll: Cost = terrain_penalty(pos, setup.world, setup.ctx);
        self.terrain_costs.insert(pos, toll);
        toll
    }

    /// Whether `known` undercuts an arrival at `pos` for `g`.
    fn already_reached(&self, pos: BlockPos, g: Cost) -> (r: bool)
        ensures
            r == (self.nodes@.contains_key(pos) && g >= self.nodes@[pos].g),
    {
        match self.nodes.get(pos) {
            Some(known) => g >= known.g,
            None => false,
        }
    }

    /// Considers one offered transition of the node being expanded.
    fn relax<W: WorldView + ?Sized, G: Goal + ?Sized, M: Move>(
        &mut self,
        setup: &Setup<'_, W, G, M>,
        current: BlockPos,
        g: Cost,
        rule: usize,
        edge: Edge,
        Ghost(choice): Ghost<int>,
    )
        requires
            old(self).sound(setup),
            expanding(
                setup.problem(),
                old(self).nodes@,
                old(self).open@,
                |pos: BlockPos| setup.finishes(pos),
                current,
                rule as int,
                choice,
            ),
            old(self).nodes@[current].g == g,
            rule < setup.moves@.len(),
            0 <= choice < setup.problem().menu(current, rule as int).len(),
            setup.problem().menu(current, rule as int)[choice] == edge,
        ensures
            final(self).sound(setup),
            expanding(
                setup.problem(),
                final(self).nodes@,
                final(self).open@,
                |pos: BlockPos| setup.finishes(pos),
                current,
                rule as int,
                choice + 1,
            ),
            final(self).nodes@[current].g == g,
            final(self).nodes@ == told(
                setup.problem(),
                old(self).nodes@,
                current,
                Hop { rule: rule as int, choice },
            ),
            pending_anew(
                old(self).nodes@,
                old(self).open@,
                final(self).nodes@,
                final(self).open@,
            ),
            refines(old(self).nodes@, final(self).nodes@),
            keeps_pending(
                old(self).nodes@,
                old(self).open@,
                final(self).nodes@,
                final(self).open@,
            ),
            final(self).examined == old(self).examined,
            final(self).level == old(self).level,
            final(self).visits == old(self).visits,
            old(self).in_order(setup, current) ==> final(self).in_order(setup, current) && unmoved(
                old(self).examined@,
                old(self).nodes@,
                final(self).nodes@,
            ),
    {
        let ghost problem = setup.problem();
        let ghost hop = Hop { rule: rule as int, choice };
        let ghost finishes = |pos: BlockPos| setup.finishes(pos);
        let ghost estimate = |pos: BlockPos| setup.estimate(pos);
        assert(problem.edge(current, hop) == edge);
        assert forall|h: Hop| hop_before(h, rule as int, choice + 1) implies hop_before(
            h,
            rule as int,
            choice,
        ) || h == hop by {}
        proof {
            lemma_still_pending(self.nodes@, self.open@);
        }
        let from_risk: Cost = self.danger_at(setup, current);
        let to_risk: Cost = self.danger_at(setup, edge.to);
        if !lava_transition_allowed(from_risk, to_risk, setup.ctx.lava_policy) {
            assert(!problem.legal(current, hop));
            return;
        }
        assert(problem.legal(current, hop));
        let metadata: Option<MotionMetadata> = match setup.moves[rule].metadata(
            current,
            &edge,
            setup.world,
            setup.ctx,
        ) {
            Some(metadata) => {
                if metadata.predicted.total() == edge.cost {
                    Some(metadata)
                } else {
                    None
                }
            },
            None => None,
        };
        assert(metadata == problem.account(current, rule as int, edge));
        let charge: Cost = match (setup.cost_model, metadata) {
            (Some(model), Some(metadata)) => model.edge_components(
                metadata.primitive,
                metadata.features,
                metadata.predicted,
            ).total(),
            _ => edge.cost,
        };
        assert(charge == problem.charge(current, rule as int, edge));
        let base_g: Cost = g.saturating_add(charge);
        if self.already_reached(edge.to, base_g) {
            assert(covered(problem, self.nodes@, current, hop));
            return;
        }
        let toll: Cost = self.toll_at(setup, edge.to);
        let next_g: Cost = base_g.saturating_add(toll);
        assert(next_g == arith::clamp_u32(g + problem.price(current, hop)));
        if self.already_reached(edge.to, next_g) {
            assert(covered(problem, self.nodes@, current, hop));
            return;
        }
        let data = NodeData { g: next_g, parent: Some(current), reached_by: edge.kind, metadata };
        let next_h: Cost = setup.heuristic(edge.to);
        let entry = OpenEntry {
            f: next_g.saturating_add(next_h),
            tie: tie_break(edge.to, setup.ctx.path_seed),
            pos: edge.to,
            g: next_g,
        };
        proof {
            lemma_improve(
                problem,
                setup.start,
                self.nodes@,
                self.stamps@,
                self.now@,
                self.open@,
                estimate,
                finishes,
                current,
                hop,
                data,
                entry,
            );
            lemma_improve_keeps_pending(self.nodes@, self.open@, data, entry);
            lemma_improve_pending(self.nodes@, self.open@, data, entry);
            lemma_improve_attained(
                problem,
                setup.start,
                self.nodes@,
                self.trails@,
                current,
                hop,
                data,
            );
            lemma_improve_tallied(
                problem,
                setup.start,
                self.nodes@,
                self.open@,
                self.visits@,
                estimate,
                data,
                entry,
            );
            if self.in_order(setup, current) {
                assert(setup.estimate(current) <= problem.price(current, hop) + setup.estimate(
                    edge.to,
                ));
                assert(!self.examined@.contains(edge.to));
                assert(self.level@ <= entry.f);
                lemma_queued_once(self.nodes@, self.open@, estimate, data, entry);
            }
        }
        let ghost before = self.open@;
        self.nodes.insert(edge.to, data);
        self.open.push(entry);
        proof {
            assert forall|e: OpenEntry| #[trigger] self.open@.contains(e) implies e == entry
                || before.contains(e) by {
                broadcast use vstd::multiset::group_multiset_axioms;

            }
            self.stamps@ = self.stamps@.insert(edge.to, self.now@);
            self.trails@ = self.trails@.insert(edge.to, self.trails@[current].push(hop));
            self.now@ = self.now@ + 1;
        }
    }

    /// Expands a node that was just taken from the queue. Answers `false` when
    /// a rule returned more candidates than a search accepts.
    pub fn expand<W: WorldView + ?Sized, G: Goal + ?Sized, M: Move>(
        &mut self,
        setup: &Setup<'_, W, G, M>,
        current: BlockPos,
        g: Cost,
        limit: usize,
    ) -> (done: bool)
        requires
            old(self).sound(setup),
            expanding(
                setup.problem(),
                old(self).nodes@,
                old(self).open@,
                |pos: BlockPos| setup.finishes(pos),
                current,
                0,
                0,
            ),
            old(self).nodes@[current].g == g,
        ensures
            final(self).sound(setup),
            done ==> complete(
                setup.problem(),
                final(self).nodes@,
                final(self).open@,
                |pos: BlockPos| setup.finishes(pos),
            ),
            done ==> final(self).nodes@ == spread(setup.problem(), old(self).nodes@, current),
            pending_anew(
                old(self).nodes@,
                old(self).open@,
                final(self).nodes@,
                final(self).open@,
            ),
            done == forall|rule: int|
                0 <= rule < setup.moves@.len() ==> (#[trigger] setup.problem().menu(
                    current,
                    rule,
                )).len() <= limit,
            refines(old(self).nodes@, final(self).nodes@),
            keeps_pending(
                old(self).nodes@,
                old(self).open@,
                final(self).nodes@,
                final(self).open@,
            ),
            final(self).examined == old(self).examined,
            final(self).level == old(self).level,
            final(self).visits == old(self).visits,
            old(self).in_order(setup, current) ==> final(self).ordered(setup) && unmoved(
                old(self).examined@,
                old(self).nodes@,
                final(self).nodes@,
            ),
    {
        let ghost problem = setup.problem();
        let ghost finishes = |pos: BlockPos| setup.finishes(pos);
        let mut rule: usize = 0;
        proof {
            lemma_still_pending(self.nodes@, self.open@);
        }
        while rule < setup.moves.len()
            invariant
                rule <= setup.moves@.len(),
                problem == setup.problem(),
                self.nodes@ == told_by_rules(problem, old(self).nodes@, current, rule as nat),
                pending_anew(old(self).nodes@, old(self).open@, self.nodes@, self.open@),
                finishes == (|pos: BlockPos| setup.finishes(pos)),
                self.sound(setup),
                expanding(problem, self.nodes@, self.open@, finishes, current, rule as int, 0),
                self.nodes@[current].g == g,
                refines(old(self).nodes@, self.nodes@),
                keeps_pending(old(self).nodes@, old(self).open@, self.nodes@, self.open@),
                self.examined == old(self).examined,
                self.level == old(self).level,
                self.visits == old(self).visits,
                old(self).in_order(setup, current) ==> self.in_order(setup, current) && unmoved(
                    old(self).examined@,
                    old(self).nodes@,
                    self.nodes@,
                ),
                forall|k: int|
                    0 <= k < rule ==> (#[trigger] problem.menu(current, k)).len() <= limit,
            decreases setup.moves@.len() - rule,
        {
            let mut candidates: Vec<Edge> = Vec::new();
            setup.moves[rule].candidates(current, setup.world, setup.ctx, &mut candidates);
            assert(candidates@ =~= problem.menu(current, rule as int));
            if candidates.len() > limit {
                return false;
            }
            let mut choice: usize = 0;
            let ghost known = self.nodes@;
            while choice < candidates.len()
                invariant
                    rule < setup.moves@.len(),
                    self.nodes@ == told_by_rule(
                        problem,
                        known,
                        current,
                        rule as int,
                        choice as nat,
                    ),
                    pending_anew(old(self).nodes@, old(self).open@, self.nodes@, self.open@),
                    choice <= candidates@.len(),
                    problem == setup.problem(),
                    finishes == (|pos: BlockPos| setup.finishes(pos)),
                    candidates@ == problem.menu(current, rule as int),
                    self.sound(setup),
                    expanding(
                        problem,
                        self.nodes@,
                        self.open@,
                        finishes,
                        current,
                        rule as int,
                        choice as int,
                    ),
                    self.nodes@[current].g == g,
                    refines(old(self).nodes@, self.nodes@),
                    keeps_pending(old(self).nodes@, old(self).open@, self.nodes@, self.open@),
                    self.examined == old(self).examined,
                    self.level == old(self).level,
                    self.visits == old(self).visits,
                    old(self).in_order(setup, current) ==> self.in_order(setup, current) && unmoved(
                        old(self).examined@,
                        old(self).nodes@,
                        self.nodes@,
                    ),
                decreases candidates@.len() - choice,
            {
                let edge = candidates[choice];
                let ghost prior = *self;
                self.relax(setup, current, g, rule, edge, Ghost(choice as int));
                proof {
                    lemma_pending_since(
                        old(self).nodes@,
                        old(self).open@,
                        prior.nodes@,
                        prior.open@,
                        self.nodes@,
                        self.open@,
                    );
                }
                choice += 1;
            }
            proof {
                assert forall|hop: Hop| #[trigger]
                    problem.legal(current, hop) && hop_before(hop, rule + 1, 0) implies covered(
                    problem,
                    self.nodes@,
                    current,
                    hop,
                ) by {
                    assert(hop_before(hop, rule as int, choice as int));
                }
            }
            rule += 1;
        }
        proof {
            assert forall|hop: Hop| #[trigger] problem.legal(current, hop) implies covered(
                problem,
                self.nodes@,
                current,
                hop,
            ) by {
                assert(hop_before(hop, rule as int, 0));
            }
            assert(settled(problem, self.nodes@, finishes, current));
        }
        true
    }

    /// The path along parents from the start to `end`.
    pub fn reconstruct<W: WorldView + ?Sized, G: Goal + ?Sized, M: Move>(
        &self,
        setup: &Setup<'_, W, G, M>,
        end: BlockPos,
        total_cost: Cost,
    ) -> (path: Path)
        requires
            self.sound(setup),
            self.nodes@.contains_key(end),
        ensures
            traces(self.nodes@, setup.start, end, path.nodes@),
            path.total_cost == total_cost,
    {
        let ghost nodes = self.nodes@;
        let ghost start = setup.start;
        let mut reversed: Vec<PathNode> = Vec::new();
        let mut at: Option<BlockPos> = Some(end);
        while at.is_some()
            invariant
                self.sound(setup),
                nodes == self.nodes@,
                start == setup.start,
                nodes.contains_key(end),
                at matches Some(next) ==> nodes.contains_key(next),
                reversed@.len() == 0 ==> at == Some(end),
                reversed@.len() > 0 ==> reversed@[0].pos == end,
                reversed@.len() > 0 ==> nodes[reversed@.last().pos].parent == at,
                forall|i: int|
                    0 <= i < reversed@.len() ==> nodes.contains_key((#[trigger] reversed@[i]).pos)
                        && reversed@[i].reached_by == nodes[reversed@[i].pos].reached_by,
                forall|i: int, j: int|
                    0 <= i < reversed@.len() - 1 && j == i + 1 ==> nodes[(
                    #[trigger] reversed@[i]).pos].parent == Some((#[trigger] reversed@[j]).pos),
            decreases
                    (match at {
                        Some(next) => nodes[next].g + 1,
                        None => 0int,
                    }),
                    (match at {
                        Some(next) => self.stamps@[next] as int,
                        None => 0int,
                    }),
        {
            let pos = at.unwrap();
            match self.nodes.get(pos) {
                Some(node) => {
                    reversed.push(PathNode { pos, reached_by: node.reached_by });
                    at = node.parent;
                    assert(pos != start ==> linked_at(
                        setup.problem(),
                        nodes,
                        self.stamps@,
                        pos,
                    )) by {
                        reveal(linked);
                    }
                },
                None => {
                    at = None;
                },
            }
        }
        let ghost back = reversed@;
        let mut nodes_in_order: Vec<PathNode> = Vec::new();
        let mut left: usize = reversed.len();
        while left > 0
            invariant
                left <= reversed@.len(),
                back == reversed@,
                nodes_in_order@.len() == back.len() - left,
                forall|i: int|
                    0 <= i < nodes_in_order@.len() ==> #[trigger] nodes_in_order@[i] == back[back.len()
                        - 1 - i],
            decreases left,
        {
            left -= 1;
            nodes_in_order.push(reversed[left]);
        }
        proof {
            let path = nodes_in_order@;
            let n = back.len() - 1;
            assert(back[n].pos == start) by {
                if back[n].pos != start {
                    reveal(linked);
                    assert(linked_at(setup.problem(), nodes, self.stamps@, back[n].pos));
                }
            }
            assert(path[0] == back[n]);
            assert(path.last() == back[0]);
            assert forall|i: int| 0 < i < path.len() implies trace_step(nodes, path, i) by {
                assert(path[i] == back[n - i]);
                assert(path[i - 1] == back[n - i + 1]);
            }
        }
        Path { nodes: nodes_in_order, total_cost }
    }
}

} // verus!
