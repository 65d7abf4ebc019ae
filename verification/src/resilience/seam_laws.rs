//! What a splice and a join make of their paths, node by node.
use vstd::prelude::*;

use crate::resilience::dependency::RouteRevisions;
use crate::resilience::scope::WorldScope;
use crate::resilience::splice;
use crate::resilience::splice::{EdgeVerdict, PathSegment};
use crate::resilience::splice::{PathSpliceError, ValidatedPath};
use crate::types::{Path, PathNode};

verus! {

/// A splice goes through for exactly these inputs: two paths that each begin
/// with their only start marker, a patch with a step, a range within the
/// original, ends that meet, and no more nodes than allowed.
pub proof fn splices_need_matching_ends(
    original: Seq<PathNode>,
    start_node: usize,
    end_node: usize,
    patch: Seq<PathNode>,
)
    ensures
        splice::splice_refusal(original, start_node, end_node, patch) is None <==> {
            &&& splice::is_complete(original)
            &&& splice::is_complete(patch)
            &&& start_node < end_node < original.len()
            &&& patch.len() >= 2
            &&& patch[0].pos == original[start_node as int].pos
            &&& patch.last().pos == original[end_node as int].pos
            &&& original.len() - (end_node - start_node) + patch.len() - 1
                <= splice::MAX_STRUCTURAL_PATH_NODES
        },
{
    splice::faultless_paths_are_complete(original, PathSegment::Original);
    splice::faultless_paths_are_complete(patch, PathSegment::Patch);
}

/// A splice keeps the original up to the start of the range and from behind its
/// end, and takes everything between from the patch but its first node.
pub proof fn splices_replace_exactly_their_range(
    original: Seq<PathNode>,
    start_node: usize,
    end_node: usize,
    patch: Seq<PathNode>,
    i: int,
)
    requires
        splice::splice_refusal(original, start_node, end_node, patch) is None,
    ensures
        ({
            let result = splice::patched(original, start_node, end_node, patch);
            let shift = patch.len() - 1 - (end_node - start_node);
            &&& result.len() == original.len() + shift
            &&& 0 <= i <= start_node ==> result[i] == original[i]
            &&& 1 <= i < patch.len() ==> result[start_node + i] == patch[i]
            &&& end_node < i < original.len() ==> result[i + shift] == original[i]
        }),
{
    splices_need_matching_ends(original, start_node, end_node, patch);
}

/// The nodes of the first `count` paths of a join that come before the path
/// `count`.
pub open spec fn nodes_before(paths: Seq<&Path>, count: int) -> int
    decreases count,
{
    if count <= 0 {
        0
    } else {
        nodes_before(paths, count - 1) + (paths[count - 1].nodes@.len() - 1)
    }
}

/// A join lays its paths end to end: every node of every path is in it, in
/// order, and the node at a seam is the last of the path before it.
pub proof fn joins_keep_every_node(paths: Seq<&Path>, count: int, k: int, i: int)
    requires
        1 <= count <= paths.len(),
        forall|j: int| 0 <= j < count ==> (#[trigger] paths[j]).nodes@.len() > 0,
        0 <= k < count,
        0 <= i < paths[k].nodes@.len(),
        k > 0 ==> i > 0,
    ensures
        splice::chain(paths, count).len() == nodes_before(paths, count) + 1,
        0 <= nodes_before(paths, k) + i < splice::chain(paths, count).len(),
        splice::chain(paths, count)[nodes_before(paths, k) + i] == paths[k].nodes@[i],
    decreases count,
{
    lemma_before(paths, count, k);
    if count > 1 {
        let before = splice::chain(paths, count - 1);
        let last = paths[count - 1].nodes@;
        joins_keep_every_node(paths, count - 1, 0, 0);
        lemma_before(paths, count - 1, 0);
        if k < count - 1 {
            joins_keep_every_node(paths, count - 1, k, i);
        }
    }
}

proof fn lemma_before(paths: Seq<&Path>, count: int, k: int)
    requires
        0 <= k < count <= paths.len(),
        forall|j: int| 0 <= j < count ==> (#[trigger] paths[j]).nodes@.len() > 0,
    ensures
        nodes_before(paths, k) >= 0,
        nodes_before(paths, k) + paths[k].nodes@.len() <= nodes_before(paths, count) + 1,
    decreases count,
{
    if k == count - 1 {
        if k > 0 {
            lemma_before(paths, k, k - 1);
        }
    } else {
        lemma_before(paths, count - 1, k);
        assert(paths[count - 1].nodes@.len() > 0);
    }
}

/// Paths follow each other exactly where each begins with its only start
/// marker, at the place where the ones before it end.
pub proof fn joins_need_matching_ends(paths: Seq<&Path>, i: int)
    requires
        1 <= i < paths.len(),
    ensures
        splice::seam_fault(paths, i) is None <==> splice::is_complete(paths[i].nodes@)
            && paths[i].nodes@[0].pos == splice::chain(paths, i).last().pos,
{
    splice::faultless_paths_are_complete(paths[i].nodes@, PathSegment::Joined(i as usize));
}

/// The sum of what a validator asks for some edges.
pub open spec fn asking_price(asked: Seq<EdgeVerdict>) -> int
    decreases asked.len(),
{
    if asked.len() == 0 {
        0
    } else {
        (match asked[0].verdict {
            Ok(cost) => cost as int,
            Err(_) => 0,
        }) + asking_price(asked.drop_first())
    }
}

proof fn lemma_price(asked: Seq<EdgeVerdict>)
    ensures
        asking_price(asked) == splice::validated_cost(asked),
    decreases asked.len(),
{
    if asked.len() > 0 {
        lemma_price(asked.drop_last());
        lemma_price_last(asked);
    }
}

proof fn lemma_price_last(asked: Seq<EdgeVerdict>)
    requires
        asked.len() > 0,
    ensures
        asking_price(asked) == asking_price(asked.drop_last()) + (match asked.last().verdict {
            Ok(cost) => cost as int,
            Err(_) => 0,
        }),
    decreases asked.len(),
{
    if asked.len() > 1 {
        lemma_price_last(asked.drop_first());
        assert(asked.drop_first().drop_last() =~= asked.drop_last().drop_first());
    } else {
        assert(asked.drop_last() =~= Seq::empty());
        assert(asked.drop_first() =~= Seq::empty());
    }
}

/// A validated path was accepted step by step: every one of its steps was
/// asked about, in order, none was refused, and its cost is what was asked for
/// them together.
pub proof fn validated_paths_cost_what_was_asked(
    nodes: Seq<PathNode>,
    asked: Seq<EdgeVerdict>,
    path: ValidatedPath,
    i: int,
)
    requires
        splice::priced(nodes, asked, Ok(path)),
        0 <= i < nodes.len() - 1,
    ensures
        path.route().nodes@ == nodes,
        asked.len() == nodes.len() - 1,
        asked[i].from == nodes[i].pos,
        asked[i].to == nodes[i + 1].pos,
        asked[i].reached_by == nodes[i + 1].reached_by,
        asked[i].verdict is Ok,
        path.route().total_cost == asking_price(asked),
{
    lemma_price(asked);
}

/// A validator that refuses a step is heard: the error names the first refused
/// step and its reason, and nothing is asked after it.
pub proof fn refused_steps_end_the_questions(
    nodes: Seq<PathNode>,
    asked: Seq<EdgeVerdict>,
    outcome: Result<ValidatedPath, PathSpliceError>,
    i: int,
)
    requires
        splice::priced(nodes, asked, outcome),
        0 <= i < asked.len(),
        asked[i].verdict is Err,
    ensures
        i == asked.len() - 1,
        outcome matches Err(PathSpliceError::EdgeRejected { edge, reason }) && edge == i && asked[i].verdict
            == Err::<crate::types::Cost, splice::EdgeValidationError>(reason),
{
    if i < asked.len() - 1 {
        assert(asked.drop_last()[i] == asked[i]);
    }
}

proof fn lemma_edges(paths: Seq<&Path>, count: int)
    requires
        0 <= count <= paths.len(),
        forall|j: int| 0 <= j < count ==> (#[trigger] paths[j]).nodes@.len() > 0,
    ensures
        splice::edges_of(paths, count) == nodes_before(paths, count),
    decreases count,
{
    if count > 0 {
        lemma_edges(paths, count - 1);
        assert(paths[count - 1].nodes@.len() > 0);
    }
}

/// Paths are joined up to a million nodes: a join is refused beforehand exactly
/// where there is nothing to join, where the first path does not begin with its
/// only start marker, and where the result would have more nodes than that.
pub proof fn joins_have_room(paths: Seq<&Path>)
    requires
        forall|j: int| 0 <= j < paths.len() ==> (#[trigger] paths[j]).nodes@.len() > 0,
    ensures
        splice::join_refusal(paths) is None <==> {
            &&& paths.len() > 0
            &&& splice::is_complete(paths[0].nodes@)
            &&& splice::chain(paths, paths.len() as int).len() <= 1_000_000
        },
{
    if paths.len() > 0 {
        splice::faultless_paths_are_complete(paths[0].nodes@, PathSegment::Joined(0));
        lemma_edges(paths, paths.len() as int);
        joins_keep_every_node(paths, paths.len() as int, 0, 0);
    }
}

/// A path is validated only for the place and the revisions it is meant for, and
/// only before what is known of the obstacles expires. A validator that speaks
/// for another place, for other revisions or too late is not asked at all, and
/// the error says which it was.
pub proof fn validators_speak_for_their_basis(
    nodes: Seq<PathNode>,
    expected_scope: WorldScope,
    expected_revisions: RouteRevisions,
    place: WorldScope,
    basis: RouteRevisions,
    tick: u64,
    earlier: Seq<EdgeVerdict>,
    history: Seq<EdgeVerdict>,
    outcome: Result<ValidatedPath, PathSpliceError>,
)
    requires
        splice::validation(
            nodes,
            expected_scope,
            expected_revisions,
            place,
            basis,
            tick,
            earlier,
            history,
            outcome,
        ),
    ensures
        ({
            let here = place.world_name() == expected_scope.world_name() && place.dimension_name()
                == expected_scope.dimension_name();
            let late = expected_revisions.dynamic_obstacles.valid_until_tick matches Some(until)
                && until <= tick;
            &&& !(here && basis == expected_revisions && !late) ==> outcome is Err && history
                == earlier
            &&& !here ==> (outcome matches Err(error) && error is ValidatorScopeMismatch)
            &&& here && basis != expected_revisions ==> (outcome matches Err(error)
                && error is ValidatorRevisionMismatch)
            &&& here && basis == expected_revisions && late ==> (outcome matches Err(error)
                && error is ValidatorEpochExpired)
            &&& outcome matches Ok(path) ==> path.place() == expected_scope && path.basis() == basis
                && path.tick() == tick && (nodes.len() > 0 ==> history.len() == earlier.len()
                + nodes.len() - 1)
        }),
{
    let asked = history.skip(earlier.len() as int);
    if outcome is Ok {
        assert(splice::priced(nodes, asked, outcome));
        assert(asked.len() == history.len() - earlier.len());
    }
}

} // verus!
