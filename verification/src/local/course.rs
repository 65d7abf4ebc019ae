//! The course of a best-first search: what it knows after each expansion, and
//! the one path it comes to.
use vstd::prelude::*;

use crate::frontier;
use crate::local::astar;
use crate::local::goal::Goal;
use crate::local::graph_model::Problem;
use crate::local::moves::Move;
use crate::local::tree;
use crate::local::tree::NodeData;
use crate::pos::BlockPos;
use crate::types::{Cost, MoveKind, PathNode};

verus! {

/// The nodes a search has reached, and the positions that wait to be examined.
pub struct Course {
    pub nodes: Map<BlockPos, NodeData>,
    pub waiting: Set<BlockPos>,
}

/// A search that knows only its start.
pub open spec fn outset(start: BlockPos) -> Course {
    Course {
        nodes: Map::<BlockPos, NodeData>::empty().insert(
            start,
            NodeData { g: 0, parent: None, reached_by: MoveKind::Start, metadata: None },
        ),
        waiting: set![start],
    }
}

/// Whether `pos` ranks first of all that wait: by the estimate of a walk through
/// it, then by its class under the path seed, then by position.
pub open spec fn comes_first<M: Move, G: Goal + ?Sized>(
    problem: Problem<M>,
    goal: &G,
    guided: bool,
    course: Course,
    pos: BlockPos,
) -> bool {
    &&& course.waiting.contains(pos)
    &&& forall|other: BlockPos| #[trigger]
        course.waiting.contains(other) ==> frontier::entry_le(
            tree::ranked(problem, goal, guided, pos, course.nodes[pos].g),
            tree::ranked(problem, goal, guided, other, course.nodes[other].g),
        )
}

/// The position that is examined next.
pub open spec fn first<M: Move, G: Goal + ?Sized>(
    problem: Problem<M>,
    goal: &G,
    guided: bool,
    course: Course,
) -> BlockPos {
    choose|pos: BlockPos| comes_first(problem, goal, guided, course, pos)
}

/// The course after one more expansion: its position no longer waits, and what it
/// improves does.
pub open spec fn continued<M: Move, G: Goal + ?Sized>(
    problem: Problem<M>,
    goal: &G,
    guided: bool,
    course: Course,
) -> Course {
    let pos = first(problem, goal, guided, course);
    let nodes = tree::spread(problem, course.nodes, pos);
    Course {
        nodes,
        waiting: Set::new(
            |p: BlockPos|
                nodes.contains_key(p) && (tree::improved(course.nodes, nodes, p) || (p != pos
                    && course.waiting.contains(p))),
        ),
    }
}

/// What a search knows after `n` expansions.
pub open spec fn course_after<M: Move, G: Goal + ?Sized>(
    problem: Problem<M>,
    goal: &G,
    guided: bool,
    start: BlockPos,
    n: nat,
) -> Course
    decreases n,
{
    if n == 0 {
        outset(start)
    } else {
        continued(
            problem,
            goal,
            guided,
            course_after(problem, goal, guided, start, (n - 1) as nat),
        )
    }
}

/// The position that is examined after `n` expansions.
pub open spec fn first_after<M: Move, G: Goal + ?Sized>(
    problem: Problem<M>,
    goal: &G,
    guided: bool,
    start: BlockPos,
    n: nat,
) -> BlockPos {
    first(problem, goal, guided, course_after(problem, goal, guided, start, n))
}

/// Whether none of the first `n` positions finishes.
pub open spec fn passes<M: Move, G: Goal + ?Sized>(
    problem: Problem<M>,
    goal: &G,
    guided: bool,
    start: BlockPos,
    n: nat,
) -> bool {
    forall|i: nat|
        i < n ==> !problem.finishes(
            goal,
            #[trigger] first_after(problem, goal, guided, start, i),
        )
}

/// Whether the first position that finishes comes after `n` expansions, and
/// `path` leads there along the parents known then.
pub open spec fn found_after<M: Move, G: Goal + ?Sized>(
    problem: Problem<M>,
    goal: &G,
    guided: bool,
    start: BlockPos,
    n: nat,
    path: Seq<PathNode>,
    cost: Cost,
) -> bool {
    let nodes = course_after(problem, goal, guided, start, n).nodes;
    let pos = first_after(problem, goal, guided, start, n);
    &&& passes(problem, goal, guided, start, n)
    &&& problem.finishes(goal, pos)
    &&& tree::traces(nodes, start, pos, path)
    &&& cost == nodes[pos].g
}

/// Whether `path` is the one that the search comes to.
pub open spec fn chosen<M: Move, G: Goal + ?Sized>(
    problem: Problem<M>,
    goal: &G,
    guided: bool,
    start: BlockPos,
    path: Seq<PathNode>,
    cost: Cost,
) -> bool {
    exists|n: nat| #[trigger] found_after(problem, goal, guided, start, n, path, cost)
}

/// The best partial result of the first `n` positions, and the cost it was
/// examined at. Of several that are as good the first one is kept.
pub open spec fn best_after<M: Move, G: Goal + ?Sized>(
    problem: Problem<M>,
    goal: &G,
    guided: bool,
    start: BlockPos,
    n: nat,
) -> (BlockPos, Cost)
    decreases n,
{
    if n == 0 {
        (start, 0)
    } else {
        let before = (n - 1) as nat;
        let best = best_after(problem, goal, guided, start, before);
        let pos = first_after(problem, goal, guided, start, before);
        if astar::outranks(
            astar::standing(problem, goal, pos),
            astar::standing(problem, goal, best.0),
        ) {
            (pos, course_after(problem, goal, guided, start, before).nodes[pos].g)
        } else {
            best
        }
    }
}

/// Whether `pos`, examined at `cost`, is the best of some number of positions
/// that the search examines first.
pub open spec fn best_so_far<M: Move, G: Goal + ?Sized>(
    problem: Problem<M>,
    goal: &G,
    guided: bool,
    start: BlockPos,
    pos: BlockPos,
    cost: Cost,
) -> bool {
    exists|n: nat| #[trigger] best_after(problem, goal, guided, start, n) == (pos, cost)
}

/// Only one position comes first.
pub proof fn lemma_one_comes_first<M: Move, G: Goal + ?Sized>(
    problem: Problem<M>,
    goal: &G,
    guided: bool,
    course: Course,
    pos: BlockPos,
)
    requires
        comes_first(problem, goal, guided, course, pos),
    ensures
        first(problem, goal, guided, course) == pos,
{
    let least = first(problem, goal, guided, course);
    assert(comes_first(problem, goal, guided, course, least));
    assert(course.waiting.contains(least) && course.waiting.contains(pos));
    let a = tree::ranked(problem, goal, guided, pos, course.nodes[pos].g);
    let b = tree::ranked(problem, goal, guided, least, course.nodes[least].g);
    assert(frontier::entry_le(a, b) && frontier::entry_le(b, a));
}

proof fn lemma_rule_keeps_root<M: Move>(
    problem: Problem<M>,
    nodes: Map<BlockPos, NodeData>,
    start: BlockPos,
    current: BlockPos,
    rule: int,
    choices: nat,
)
    requires
        tree::rooted(nodes, start),
    ensures
        tree::rooted(tree::told_by_rule(problem, nodes, current, rule, choices), start),
    decreases choices,
{
    if choices > 0 {
        lemma_rule_keeps_root(problem, nodes, start, current, rule, (choices - 1) as nat);
    }
}

proof fn lemma_rules_keep_root<M: Move>(
    problem: Problem<M>,
    nodes: Map<BlockPos, NodeData>,
    start: BlockPos,
    current: BlockPos,
    rules: nat,
)
    requires
        tree::rooted(nodes, start),
    ensures
        tree::rooted(tree::told_by_rules(problem, nodes, current, rules), start),
    decreases rules,
{
    if rules > 0 {
        let last = (rules - 1) as nat;
        lemma_rules_keep_root(problem, nodes, start, current, last);
        lemma_rule_keeps_root(
            problem,
            tree::told_by_rules(problem, nodes, current, last),
            start,
            current,
            last as int,
            problem.menu(current, last as int).len(),
        );
    }
}

/// The start stays the root of all that a search comes to know.
proof fn lemma_course_is_rooted<M: Move, G: Goal + ?Sized>(
    problem: Problem<M>,
    goal: &G,
    guided: bool,
    start: BlockPos,
    n: nat,
)
    ensures
        tree::rooted(course_after(problem, goal, guided, start, n).nodes, start),
    decreases n,
{
    if n > 0 {
        let before = course_after(problem, goal, guided, start, (n - 1) as nat);
        lemma_course_is_rooted(problem, goal, guided, start, (n - 1) as nat);
        lemma_rules_keep_root(
            problem,
            before.nodes,
            start,
            first(problem, goal, guided, before),
            problem.moves.len(),
        );
    }
}

/// A search comes to one path only, whatever slices it is run in and however
/// many others cost the same.
pub proof fn one_path_is_chosen<M: Move, G: Goal + ?Sized>(
    problem: Problem<M>,
    goal: &G,
    guided: bool,
    start: BlockPos,
    path: Seq<PathNode>,
    cost: Cost,
    other_path: Seq<PathNode>,
    other_cost: Cost,
)
    requires
        chosen(problem, goal, guided, start, path, cost),
        chosen(problem, goal, guided, start, other_path, other_cost),
    ensures
        path == other_path,
        cost == other_cost,
{
    let n = choose|n: nat| #[trigger]
        found_after(problem, goal, guided, start, n, path, cost);
    let m = choose|m: nat| #[trigger]
        found_after(problem, goal, guided, start, m, other_path, other_cost);
    assert(!problem.finishes(goal, first_after(problem, goal, guided, start, n)) || n >= m);
    assert(!problem.finishes(goal, first_after(problem, goal, guided, start, m)) || m >= n);
    lemma_course_is_rooted(problem, goal, guided, start, n);
    tree::lemma_one_trace(
        course_after(problem, goal, guided, start, n).nodes,
        start,
        first_after(problem, goal, guided, start, n),
        path,
        other_path,
    );
}

} // verus!
