//! Joining and splicing complete paths, and validating the result edge by edge.
use vstd::prelude::*;

use crate::pos::BlockPos;
use crate::resilience::dependency::RouteRevisions;
use crate::resilience::scope::WorldScope;
use crate::types::{copied, Cost, MoveKind, Path, PathNode};

verus! {

#[derive(Clone, Copy, PartialEq, Eq, Structural, Debug)]
pub enum PathSegment {
    Original,
    Patch,
    Joined(usize),
}

pub const MAX_STRUCTURAL_PATH_NODES: usize = 1_000_000;

#[derive(Clone, Copy, PartialEq, Eq, Structural, Debug)]
pub enum EdgeValidationError {
    Unsafe,
    UnknownPrimitive,
    StaleWorld,
    CostUnavailable,
}

#[allow(inconsistent_fields)]
#[derive(PartialEq, Eq, Debug)]
pub enum PathSpliceError {
    NoSegments,
    Empty { segment: PathSegment },
    InvalidStartMarker { segment: PathSegment },
    EmbeddedStart { segment: PathSegment, node: usize },
    InvalidRange { start_node: usize, end_node: usize, node_count: usize },
    PatchHasNoEdge,
    EndpointMismatch { segment: PathSegment, expected: BlockPos, actual: BlockPos },
    TooManyNodes { nodes: usize, maximum: usize },
    AllocationFailed,
    ValidatorScopeMismatch { expected: WorldScope, actual: WorldScope },
    ValidatorRevisionMismatch { expected: RouteRevisions, actual: RouteRevisions },
    ValidatorEpochExpired { valid_until_tick: u64, validated_at_tick: u64 },
    EdgeRejected { edge: usize, reason: EdgeValidationError },
    CostOverflow,
}

impl Clone for PathSpliceError {
    fn clone(&self) -> (copy: PathSpliceError)
        ensures
            copy == *self,
    {
        match self {
            PathSpliceError::NoSegments => PathSpliceError::NoSegments,
            PathSpliceError::Empty { segment } => PathSpliceError::Empty {
                segment: *segment,
            },
            PathSpliceError::InvalidStartMarker { segment } => PathSpliceError::InvalidStartMarker {
                segment: *segment,
            },
            PathSpliceError::EmbeddedStart { segment, node } => PathSpliceError::EmbeddedStart {
                segment: *segment,
                node: *node,
            },
            PathSpliceError::InvalidRange { start_node, end_node, node_count } => PathSpliceError::InvalidRange {
                start_node: *start_node,
                end_node: *end_node,
                node_count: *node_count,
            },
            PathSpliceError::PatchHasNoEdge => PathSpliceError::PatchHasNoEdge,
            PathSpliceError::EndpointMismatch { segment, expected, actual } => PathSpliceError::EndpointMismatch {
                segment: *segment,
                expected: *expected,
                actual: *actual,
            },
            PathSpliceError::TooManyNodes { nodes, maximum } => PathSpliceError::TooManyNodes {
                nodes: *nodes,
                maximum: *maximum,
            },
            PathSpliceError::AllocationFailed => PathSpliceError::AllocationFailed,
            PathSpliceError::ValidatorScopeMismatch { expected, actual } => PathSpliceError::ValidatorScopeMismatch {
                expected: expected.clone(),
                actual: actual.clone(),
            },
            PathSpliceError::ValidatorRevisionMismatch { expected, actual } => PathSpliceError::ValidatorRevisionMismatch {
                expected: *expected,
                actual: *actual,
            },
            PathSpliceError::ValidatorEpochExpired { valid_until_tick, validated_at_tick } => PathSpliceError::ValidatorEpochExpired {
                valid_until_tick: *valid_until_tick,
                validated_at_tick: *validated_at_tick,
            },
            PathSpliceError::EdgeRejected { edge, reason } => PathSpliceError::EdgeRejected {
                edge: *edge,
                reason: *reason,
            },
            PathSpliceError::CostOverflow => PathSpliceError::CostOverflow,
        }
    }
}

/// The first start marker at or after node `at`, or the number of nodes.
pub open spec fn next_start(nodes: Seq<PathNode>, at: int) -> int
    decreases nodes.len() - at,
{
    if at >= nodes.len() || nodes[at].reached_by is Start {
        at
    } else {
        next_start(nodes, at + 1)
    }
}

/// What keeps a list of nodes from being a complete path: one that begins with
/// its only start marker.
pub open spec fn path_fault(nodes: Seq<PathNode>, segment: PathSegment) -> Option<PathSpliceError> {
    if nodes.len() == 0 {
        Some(PathSpliceError::Empty { segment })
    } else if !(nodes[0].reached_by is Start) {
        Some(PathSpliceError::InvalidStartMarker { segment })
    } else if next_start(nodes, 1) < nodes.len() {
        Some(PathSpliceError::EmbeddedStart { segment, node: next_start(nodes, 1) as usize })
    } else {
        None
    }
}

/// A list of nodes that begins with its only start marker.
pub open spec fn is_complete(nodes: Seq<PathNode>) -> bool {
    &&& nodes.len() > 0
    &&& forall|i: int|
        0 <= i < nodes.len() ==> ((#[trigger] nodes[i]).reached_by is Start <==> i == 0)
}

proof fn lemma_next_start(nodes: Seq<PathNode>, at: int)
    requires
        0 <= at <= nodes.len(),
    ensures
        at <= next_start(nodes, at) <= nodes.len(),
        next_start(nodes, at) < nodes.len() ==> nodes[next_start(nodes, at)].reached_by is Start,
        forall|i: int|
            at <= i < next_start(nodes, at) ==> !((#[trigger] nodes[i]).reached_by is Start),
    decreases nodes.len() - at,
{
    if at < nodes.len() && !(nodes[at].reached_by is Start) {
        lemma_next_start(nodes, at + 1);
    }
}

/// A path without fault is exactly one that begins with its only start marker.
pub proof fn faultless_paths_are_complete(nodes: Seq<PathNode>, segment: PathSegment)
    ensures
        path_fault(nodes, segment) is None <==> is_complete(nodes),
{
    if nodes.len() > 0 {
        lemma_next_start(nodes, 1);
        if is_complete(nodes) {
            let at = next_start(nodes, 1);
            assert(at < nodes.len() ==> nodes[at].reached_by is Start);
        }
    }
}

fn validate_complete_path(path: &Path, segment: PathSegment) -> (checked: Result<
    (),
    PathSpliceError,
>)
    ensures
        match checked {
            Ok(()) => path_fault(path.nodes@, segment) is None,
            Err(error) => path_fault(path.nodes@, segment) == Some(error),
        },
{
    if path.nodes.len() == 0 {
        return Err(PathSpliceError::Empty { segment });
    }
    if path.nodes[0].reached_by != MoveKind::Start {
        return Err(PathSpliceError::InvalidStartMarker { segment });
    }
    let mut node: usize = 1;
    while node < path.nodes.len()
        invariant
            1 <= node <= path.nodes@.len(),
            path.nodes@[0].reached_by is Start,
            next_start(path.nodes@, 1) == next_start(path.nodes@, node as int),
        decreases path.nodes@.len() - node,
    {
        if path.nodes[node].reached_by == MoveKind::Start {
            return Err(PathSpliceError::EmbeddedStart { segment, node });
        }
        node += 1;
    }
    Ok(())
}

/// Node structure without executable validity or cost claims.
///
/// There is intentionally no conversion to [`Path`] without an
/// [`PathEdgeValidator`]. Endpoint equality alone cannot prove that a seam or
/// a replacement edge remains legal in the current world.
#[derive(Debug)]
pub struct UnvalidatedStructuralPath {
    nodes: Vec<PathNode>,
}

impl Clone for UnvalidatedStructuralPath {
    fn clone(&self) -> (copy: UnvalidatedStructuralPath)
        ensures
            copy.list() == self.list(),
    {
        UnvalidatedStructuralPath { nodes: copied(&self.nodes) }
    }
}

impl UnvalidatedStructuralPath {
    pub closed spec fn list(self) -> Seq<PathNode> {
        self.nodes@
    }

    pub fn nodes(&self) -> (nodes: &[PathNode])
        ensures
            nodes@ == self.list(),
    {
        self.nodes.as_slice()
    }
}

/// The edges of the first `count` paths together.
pub open spec fn edges_of(paths: Seq<&Path>, count: int) -> int
    decreases count,
{
    if count <= 0 {
        0
    } else {
        edges_of(paths, count - 1) + if paths[count - 1].nodes@.len() == 0 {
            0
        } else {
            paths[count - 1].nodes@.len() - 1
        }
    }
}

/// The first `count` paths laid end to end, with one node at each seam.
pub open spec fn chain(paths: Seq<&Path>, count: int) -> Seq<PathNode>
    decreases count,
{
    if count <= 0 {
        Seq::empty()
    } else if count == 1 {
        paths[0].nodes@
    } else {
        chain(paths, count - 1) + paths[count - 1].nodes@.skip(1)
    }
}

/// What keeps path `i` from following the ones before it.
pub open spec fn seam_fault(paths: Seq<&Path>, i: int) -> Option<PathSpliceError> {
    let segment = PathSegment::Joined(i as usize);
    match path_fault(paths[i].nodes@, segment) {
        Some(fault) => Some(fault),
        None => {
            let expected = chain(paths, i).last().pos;
            let actual = paths[i].nodes@[0].pos;
            if expected != actual {
                Some(PathSpliceError::EndpointMismatch { segment, expected, actual })
            } else {
                None
            }
        },
    }
}

/// Why paths are refused before room for the result is reserved.
pub open spec fn join_refusal(paths: Seq<&Path>) -> Option<PathSpliceError> {
    if paths.len() == 0 {
        Some(PathSpliceError::NoSegments)
    } else if path_fault(paths[0].nodes@, PathSegment::Joined(0)) is Some {
        path_fault(paths[0].nodes@, PathSegment::Joined(0))
    } else if edges_of(paths, paths.len() as int) + 1 > MAX_STRUCTURAL_PATH_NODES {
        Some(
            PathSpliceError::TooManyNodes {
                nodes: if edges_of(paths, paths.len() as int) + 1 > usize::MAX {
                    usize::MAX
                } else {
                    (edges_of(paths, paths.len() as int) + 1) as usize
                },
                maximum: MAX_STRUCTURAL_PATH_NODES,
            },
        )
    } else {
        None
    }
}

/// The outcome of joining once room is reserved: the chain, or the first seam
/// that does not hold.
pub open spec fn joined(
    paths: Seq<&Path>,
    outcome: Result<UnvalidatedStructuralPath, PathSpliceError>,
) -> bool {
    match outcome {
        Ok(path) => {
            &&& path.list() == chain(paths, paths.len() as int)
            &&& forall|i: int| 1 <= i < paths.len() ==> (#[trigger] seam_fault(paths, i)) is None
        },
        Err(error) => exists|i: int|
            1 <= i < paths.len() && (#[trigger] seam_fault(paths, i)) == Some(error) && (forall|
                j: int,
            |
                1 <= j < i ==> (#[trigger] seam_fault(paths, j)) is None),
    }
}

/// The number of nodes to reserve for joined paths.
pub fn join_size(paths: &[&Path]) -> (size: Result<usize, PathSpliceError>)
    ensures
        match size {
            Ok(nodes) => join_refusal(paths@) is None && nodes == edges_of(
                paths@,
                paths@.len() as int,
            ) + 1,
            Err(error) => join_refusal(paths@) == Some(error),
        },
{
    if paths.len() == 0 {
        return Err(PathSpliceError::NoSegments);
    }
    if let Err(error) = validate_complete_path(paths[0], PathSegment::Joined(0)) {
        return Err(error);
    }
    let mut edges: usize = 0;
    let mut full: bool = false;
    let mut i: usize = 0;
    while i < paths.len()
        invariant
            i <= paths@.len(),
            paths@.len() > 0,
            full ==> edges_of(paths@, i as int) > usize::MAX,
            !full ==> edges == edges_of(paths@, i as int),
        decreases paths@.len() - i,
    {
        let nodes: usize = paths[i].nodes.len();
        let more: usize = if nodes == 0 {
            0
        } else {
            nodes - 1
        };
        match edges.checked_add(more) {
            Some(sum) => {
                edges = sum;
            },
            None => {
                full = true;
            },
        }
        i += 1;
    }
    if full || edges == usize::MAX {
        return Err(
            PathSpliceError::TooManyNodes {
                nodes: usize::MAX,
                maximum: MAX_STRUCTURAL_PATH_NODES,
            },
        );
    }
    let requested: usize = edges + 1;
    if requested > MAX_STRUCTURAL_PATH_NODES {
        return Err(
            PathSpliceError::TooManyNodes {
                nodes: requested,
                maximum: MAX_STRUCTURAL_PATH_NODES,
            },
        );
    }
    Ok(requested)
}

/// Copies the nodes of a path from node `from` on to the end of a list.
fn append_nodes(nodes: &mut Vec<PathNode>, path: &Path, from: usize)
    requires
        from <= path.nodes@.len(),
    ensures
        final(nodes)@ == old(nodes)@ + path.nodes@.skip(from as int),
{
    let mut i: usize = from;
    assert(nodes@ =~= nodes@ + path.nodes@.subrange(from as int, from as int));
    while i < path.nodes.len()
        invariant
            from <= i <= path.nodes@.len(),
            nodes@ == old(nodes)@ + path.nodes@.subrange(from as int, i as int),
        decreases path.nodes@.len() - i,
    {
        nodes.push(path.nodes[i]);
        i += 1;
        assert(path.nodes@.subrange(from as int, i as int) =~= path.nodes@.subrange(
            from as int,
            i - 1,
        ).push(path.nodes@[i - 1]));
        assert(nodes@ =~= old(nodes)@ + path.nodes@.subrange(from as int, i as int));
    }
    assert(path.nodes@.subrange(from as int, i as int) =~= path.nodes@.skip(from as int));
}

/// Joins paths into an empty list with room for them, or reports that there
/// was no room.
pub fn join_into(paths: &[&Path], room: Option<Vec<PathNode>>) -> (outcome: Result<
    UnvalidatedStructuralPath,
    PathSpliceError,
>)
    requires
        join_refusal(paths@) is None,
        room matches Some(nodes) ==> nodes@.len() == 0,
    ensures
        match room {
            Some(_) => joined(paths@, outcome),
            None => outcome == Err::<UnvalidatedStructuralPath, PathSpliceError>(
                PathSpliceError::AllocationFailed,
            ),
        },
{
    let mut nodes: Vec<PathNode> = match room {
        Some(nodes) => nodes,
        None => {
            return Err(PathSpliceError::AllocationFailed);
        },
    };
    append_nodes(&mut nodes, paths[0], 0);
    assert(nodes@ =~= chain(paths@, 1));
    let mut i: usize = 1;
    while i < paths.len()
        invariant
            1 <= i <= paths@.len(),
            room is Some,
            nodes@ == chain(paths@, i as int),
            nodes@.len() > 0,
            forall|j: int| 1 <= j < i ==> (#[trigger] seam_fault(paths@, j)) is None,
        decreases paths@.len() - i,
    {
        let segment = PathSegment::Joined(i);
        let path = paths[i];
        if let Err(error) = validate_complete_path(path, segment) {
            assert(seam_fault(paths@, i as int) == Some(error));
            return Err(error);
        }
        let expected = nodes[nodes.len() - 1].pos;
        let actual = path.nodes[0].pos;
        if expected != actual {
            let error = PathSpliceError::EndpointMismatch { segment, expected, actual };
            assert(seam_fault(paths@, i as int) == Some(error));
            return Err(error);
        }
        append_nodes(&mut nodes, path, 1);
        i += 1;
    }
    Ok(UnvalidatedStructuralPath { nodes })
}

/// Reserves room for `count` nodes; whether there is any is up to the
/// allocator.
fn reserve_nodes(count: usize) -> (room: Option<Vec<PathNode>>)
    ensures
        room matches Some(nodes) ==> nodes@.len() == 0,
{
    let mut nodes: Vec<PathNode> = Vec::new();
    match nodes.try_reserve(count) {
        Ok(()) => Some(nodes),
        Err(_) => None,
    }
}

/// Structurally joins complete paths at matching endpoint positions.
///
/// The result is not executable until [`validate_structural_path`] validates
/// every edge against a frozen scope and revision set. Only the allocator
/// decides whether room for the result can be reserved.
pub fn structurally_join_paths(paths: &[&Path]) -> (outcome: Result<
    UnvalidatedStructuralPath,
    PathSpliceError,
>)
    ensures
        match join_refusal(paths@) {
            Some(error) => outcome == Err::<UnvalidatedStructuralPath, PathSpliceError>(error),
            None => joined(paths@, outcome) || outcome == Err::<
                UnvalidatedStructuralPath,
                PathSpliceError,
            >(PathSpliceError::AllocationFailed),
        },
{
    match join_size(paths) {
        Ok(count) => join_into(paths, reserve_nodes(count)),
        Err(error) => Err(error),
    }
}

/// Why a splice is refused before room for the result is reserved.
pub open spec fn splice_refusal(
    original: Seq<PathNode>,
    start_node: usize,
    end_node: usize,
    patch: Seq<PathNode>,
) -> Option<PathSpliceError> {
    if path_fault(original, PathSegment::Original) is Some {
        path_fault(original, PathSegment::Original)
    } else if path_fault(patch, PathSegment::Patch) is Some {
        path_fault(patch, PathSegment::Patch)
    } else if start_node >= end_node || end_node >= original.len() {
        Some(
            PathSpliceError::InvalidRange {
                start_node,
                end_node,
                node_count: original.len() as usize,
            },
        )
    } else if patch.len() < 2 {
        Some(PathSpliceError::PatchHasNoEdge)
    } else if original[start_node as int].pos != patch[0].pos {
        Some(
            PathSpliceError::EndpointMismatch {
                segment: PathSegment::Patch,
                expected: original[start_node as int].pos,
                actual: patch[0].pos,
            },
        )
    } else if original[end_node as int].pos != patch.last().pos {
        Some(
            PathSpliceError::EndpointMismatch {
                segment: PathSegment::Patch,
                expected: original[end_node as int].pos,
                actual: patch.last().pos,
            },
        )
    } else {
        let count = original.len() - (end_node - start_node) + patch.len() - 1;
        if count > MAX_STRUCTURAL_PATH_NODES {
            Some(
                PathSpliceError::TooManyNodes {
                    nodes: if count > usize::MAX {
                        usize::MAX
                    } else {
                        count as usize
                    },
                    maximum: MAX_STRUCTURAL_PATH_NODES,
                },
            )
        } else {
            None
        }
    }
}

/// A path whose nodes from `start_node` to `end_node` are those of a patch.
pub open spec fn patched(
    original: Seq<PathNode>,
    start_node: usize,
    end_node: usize,
    patch: Seq<PathNode>,
) -> Seq<PathNode> {
    original.take(start_node + 1) + patch.skip(1) + original.skip(end_node + 1)
}

/// The number of nodes to reserve for a splice.
pub fn splice_size(original: &Path, start_node: usize, end_node: usize, patch: &Path) -> (size:
    Result<usize, PathSpliceError>)
    ensures
        match size {
            Ok(nodes) => splice_refusal(original.nodes@, start_node, end_node, patch.nodes@) is None
                && nodes == patched(original.nodes@, start_node, end_node, patch.nodes@).len(),
            Err(error) => splice_refusal(original.nodes@, start_node, end_node, patch.nodes@)
                == Some(error),
        },
{
    if let Err(error) = validate_complete_path(original, PathSegment::Original) {
        return Err(error);
    }
    if let Err(error) = validate_complete_path(patch, PathSegment::Patch) {
        return Err(error);
    }
    if start_node >= end_node || end_node >= original.nodes.len() {
        return Err(
            PathSpliceError::InvalidRange {
                start_node,
                end_node,
                node_count: original.nodes.len(),
            },
        );
    }
    if patch.nodes.len() < 2 {
        return Err(PathSpliceError::PatchHasNoEdge);
    }
    let expected_start = original.nodes[start_node].pos;
    let actual_start = patch.nodes[0].pos;
    if expected_start != actual_start {
        return Err(
            PathSpliceError::EndpointMismatch {
                segment: PathSegment::Patch,
                expected: expected_start,
                actual: actual_start,
            },
        );
    }
    let expected_end = original.nodes[end_node].pos;
    let actual_end = patch.nodes[patch.nodes.len() - 1].pos;
    if expected_end != actual_end {
        return Err(
            PathSpliceError::EndpointMismatch {
                segment: PathSegment::Patch,
                expected: expected_end,
                actual: actual_end,
            },
        );
    }
    let kept: usize = original.nodes.len() - (end_node - start_node);
    match kept.checked_add(patch.nodes.len() - 1) {
        Some(count) => if count > MAX_STRUCTURAL_PATH_NODES {
            Err(
                PathSpliceError::TooManyNodes {
                    nodes: count,
                    maximum: MAX_STRUCTURAL_PATH_NODES,
                },
            )
        } else {
            Ok(count)
        },
        None => Err(
            PathSpliceError::TooManyNodes {
                nodes: usize::MAX,
                maximum: MAX_STRUCTURAL_PATH_NODES,
            },
        ),
    }
}

/// Splices into an empty list with room for the result, or reports that there
/// was no room.
pub fn splice_into(
    original: &Path,
    start_node: usize,
    end_node: usize,
    patch: &Path,
    room: Option<Vec<PathNode>>,
) -> (outcome: Result<UnvalidatedStructuralPath, PathSpliceError>)
    requires
        splice_refusal(original.nodes@, start_node, end_node, patch.nodes@) is None,
        room matches Some(nodes) ==> nodes@.len() == 0,
    ensures
        match room {
            Some(_) => outcome matches Ok(path) && path.list() == patched(
                original.nodes@,
                start_node,
                end_node,
                patch.nodes@,
            ),
            None => outcome == Err::<UnvalidatedStructuralPath, PathSpliceError>(
                PathSpliceError::AllocationFailed,
            ),
        },
{
    let mut nodes: Vec<PathNode> = match room {
        Some(nodes) => nodes,
        None => {
            return Err(PathSpliceError::AllocationFailed);
        },
    };
    let mut i: usize = 0;
    while i <= start_node
        invariant
            i <= start_node + 1,
            start_node < end_node < original.nodes@.len(),
            nodes@ == original.nodes@.take(i as int),
        decreases start_node + 1 - i,
    {
        nodes.push(original.nodes[i]);
        i += 1;
        assert(original.nodes@.take(i as int) =~= original.nodes@.take(i - 1).push(
            original.nodes@[i - 1],
        ));
    }
    append_nodes(&mut nodes, patch, 1);
    let count: usize = original.nodes.len();
    assert(end_node < count);
    append_nodes(&mut nodes, original, end_node + 1);
    Ok(UnvalidatedStructuralPath { nodes })
}

/// Structurally replaces an inclusive node range with a complete patch.
///
/// This only checks node structure and matching endpoints. The returned value
/// is deliberately not a [`Path`] and must be passed through
/// [`validate_structural_path`] before execution. Only the allocator decides
/// whether room for the result can be reserved.
pub fn structurally_splice_path(
    original: &Path,
    start_node: usize,
    end_node: usize,
    patch: &Path,
) -> (outcome: Result<UnvalidatedStructuralPath, PathSpliceError>)
    ensures
        spliced(original.nodes@, start_node, end_node, patch.nodes@, outcome),
{
    match splice_size(original, start_node, end_node, patch) {
        Ok(count) => splice_into(original, start_node, end_node, patch, reserve_nodes(count)),
        Err(error) => Err(error),
    }
}

/// The outcome of a splice: its refusal, the patched nodes, or no room.
pub open spec fn spliced(
    original: Seq<PathNode>,
    start_node: usize,
    end_node: usize,
    patch: Seq<PathNode>,
    outcome: Result<UnvalidatedStructuralPath, PathSpliceError>,
) -> bool {
    match splice_refusal(original, start_node, end_node, patch) {
        Some(error) => outcome == Err::<UnvalidatedStructuralPath, PathSpliceError>(error),
        None => match outcome {
            Ok(path) => path.list() == patched(original, start_node, end_node, patch),
            Err(error) => error is AllocationFailed,
        },
    }
}

/// A splice keeps both ends of the route and stays a complete path.
pub proof fn splices_keep_the_endpoints(
    original: Seq<PathNode>,
    start_node: usize,
    end_node: usize,
    patch: Seq<PathNode>,
)
    requires
        splice_refusal(original, start_node, end_node, patch) is None,
    ensures
        is_complete(patched(original, start_node, end_node, patch)),
        patched(original, start_node, end_node, patch)[0] == original[0],
        patched(original, start_node, end_node, patch).last().pos == original.last().pos,
{
    faultless_paths_are_complete(original, PathSegment::Original);
    faultless_paths_are_complete(patch, PathSegment::Patch);
    let result = patched(original, start_node, end_node, patch);
    let head = start_node + 1;
    let middle = patch.len() - 1;
    assert forall|i: int| 0 <= i < result.len() implies ((
    #[trigger] result[i]).reached_by is Start <==> i == 0) by {
        if i < head {
            assert(result[i] == original[i]);
        } else if i < head + middle {
            assert(result[i] == patch[i - head + 1]);
        } else {
            assert(result[i] == original[i - head - middle + end_node + 1]);
        }
    }
    if end_node + 1 == original.len() {
        assert(result.last() == patch.last());
    } else {
        assert(result.last() == original.last());
    }
}

/// Joined paths form one complete path from the start of the first to the end
/// of the last.
pub proof fn joins_keep_the_endpoints(paths: Seq<&Path>, count: int)
    requires
        1 <= count <= paths.len(),
        path_fault(paths[0].nodes@, PathSegment::Joined(0)) is None,
        forall|i: int| 1 <= i < count ==> (#[trigger] seam_fault(paths, i)) is None,
    ensures
        is_complete(chain(paths, count)),
        chain(paths, count)[0] == paths[0].nodes@[0],
        chain(paths, count).last().pos == paths[count - 1].nodes@.last().pos,
        chain(paths, count).len() == edges_of(paths, count) + 1,
    decreases count,
{
    faultless_paths_are_complete(paths[0].nodes@, PathSegment::Joined(0));
    if count > 1 {
        joins_keep_the_endpoints(paths, count - 1);
        let last = paths[count - 1].nodes@;
        assert(seam_fault(paths, count - 1) is None);
        faultless_paths_are_complete(last, PathSegment::Joined((count - 1) as usize));
        let before = chain(paths, count - 1);
        let after = chain(paths, count);
        assert forall|i: int| 0 <= i < after.len() implies ((
        #[trigger] after[i]).reached_by is Start <==> i == 0) by {
            if i < before.len() {
                assert(after[i] == before[i]);
            } else {
                assert(after[i] == last[i - before.len() + 1]);
            }
        }
        if last.len() == 1 {
            assert(after =~= before);
        } else {
            assert(after.last() == last.last());
        }
    } else {
        assert(edges_of(paths, 1) == edges_of(paths, 0) + paths[0].nodes@.len() - 1);
    }
}

/// One question put to a validator, and its answer.
pub struct EdgeVerdict {
    pub from: BlockPos,
    pub to: BlockPos,
    pub reached_by: MoveKind,
    pub verdict: Result<Cost, EdgeValidationError>,
}

/// Live validator used to turn structural nodes into an executable route.
pub trait PathEdgeValidator {
    /// The world the validator reads.
    open spec fn place(&self) -> WorldScope {
        arbitrary()
    }

    /// The revisions the validator answers for.
    open spec fn basis(&self) -> RouteRevisions {
        arbitrary()
    }

    /// The tick at which it validates.
    open spec fn tick(&self) -> u64 {
        arbitrary()
    }

    /// Every question so far, with its answer.
    open spec fn history(&self) -> Seq<EdgeVerdict> {
        arbitrary()
    }

    fn scope(&self) -> (scope: &WorldScope)
        ensures
            *scope == self.place(),
    ;

    fn revisions(&self) -> (revisions: RouteRevisions)
        ensures
            revisions == self.basis(),
    ;

    fn validation_tick(&self) -> (tick: u64)
        ensures
            tick == self.tick(),
    ;

    fn validate_edge(&mut self, from: BlockPos, to: BlockPos, reached_by: MoveKind) -> (verdict:
        Result<Cost, EdgeValidationError>)
        ensures
            final(self).history() == old(self).history().push(
                EdgeVerdict { from, to, reached_by, verdict },
            ),
    ;
}

/// Executable path tied to the exact scope and revisions used for validation.
#[derive(Debug)]
pub struct ValidatedPath {
    path: Path,
    scope: WorldScope,
    revisions: RouteRevisions,
    validated_at_tick: u64,
}

impl Clone for ValidatedPath {
    fn clone(&self) -> (copy: ValidatedPath)
        ensures
            copy.route().nodes@ == self.route().nodes@,
            copy.route().total_cost == self.route().total_cost,
            copy.place() == self.place(),
            copy.basis() == self.basis(),
            copy.tick() == self.tick(),
    {
        ValidatedPath {
            path: self.path.clone(),
            scope: self.scope.clone(),
            revisions: self.revisions,
            validated_at_tick: self.validated_at_tick,
        }
    }
}

impl ValidatedPath {
    pub closed spec fn route(self) -> Path {
        self.path
    }

    pub closed spec fn place(self) -> WorldScope {
        self.scope
    }

    pub closed spec fn basis(self) -> RouteRevisions {
        self.revisions
    }

    pub closed spec fn tick(self) -> u64 {
        self.validated_at_tick
    }

    pub fn path(&self) -> (path: &Path)
        ensures
            *path == self.route(),
    {
        &self.path
    }

    pub fn scope(&self) -> (scope: &WorldScope)
        ensures
            *scope == self.place(),
    {
        &self.scope
    }

    pub fn revisions(&self) -> (revisions: RouteRevisions)
        ensures
            revisions == self.basis(),
    {
        self.revisions
    }

    pub fn validated_at_tick(&self) -> (tick: u64)
        ensures
            tick == self.tick(),
    {
        self.validated_at_tick
    }
}

/// The summed cost of the accepted edges of a history.
pub open spec fn validated_cost(asked: Seq<EdgeVerdict>) -> int
    decreases asked.len(),
{
    if asked.len() == 0 {
        0
    } else {
        validated_cost(asked.drop_last()) + match asked.last().verdict {
            Ok(cost) => cost as int,
            Err(_) => 0,
        }
    }
}

/// Whether the questions asked are the first edges of a node list, in order.
pub open spec fn asks_in_order(nodes: Seq<PathNode>, asked: Seq<EdgeVerdict>) -> bool {
    forall|i: int|
        0 <= i < asked.len() ==> (#[trigger] asked[i]).from == nodes[i].pos && asked[i].to
            == nodes[i + 1].pos && asked[i].reached_by == nodes[i + 1].reached_by
}

pub open spec fn all_accepted(asked: Seq<EdgeVerdict>) -> bool {
    forall|i: int| 0 <= i < asked.len() ==> (#[trigger] asked[i]).verdict is Ok
}

/// Why a validator is refused before it is asked anything.
pub open spec fn validator_refusal(
    place: WorldScope,
    basis: RouteRevisions,
    tick: u64,
    expected_scope: WorldScope,
    expected_revisions: RouteRevisions,
) -> Option<PathSpliceError> {
    if !place.same(expected_scope) {
        Some(PathSpliceError::ValidatorScopeMismatch { expected: expected_scope, actual: place })
    } else if basis != expected_revisions {
        Some(
            PathSpliceError::ValidatorRevisionMismatch {
                expected: expected_revisions,
                actual: basis,
            },
        )
    } else if expected_revisions.dynamic_obstacles.expired(tick) {
        Some(
            PathSpliceError::ValidatorEpochExpired {
                valid_until_tick: expected_revisions.dynamic_obstacles.valid_until_tick->0,
                validated_at_tick: tick,
            },
        )
    } else {
        None
    }
}

/// What the answers of a validator make of a node list: every edge is asked in
/// order until one is rejected or the summed cost no longer fits.
pub open spec fn priced(
    nodes: Seq<PathNode>,
    asked: Seq<EdgeVerdict>,
    outcome: Result<ValidatedPath, PathSpliceError>,
) -> bool {
    let edges = if nodes.len() == 0 {
        0
    } else {
        nodes.len() - 1
    };
    &&& asked.len() <= edges
    &&& asks_in_order(nodes, asked)
    &&& match outcome {
        Ok(path) => {
            &&& asked.len() == edges
            &&& all_accepted(asked)
            &&& path.route().nodes@ == nodes
            &&& path.route().total_cost == validated_cost(asked)
        },
        Err(PathSpliceError::EdgeRejected { edge, reason }) => {
            &&& asked.len() == edge + 1
            &&& all_accepted(asked.drop_last())
            &&& validated_cost(asked.drop_last()) <= u32::MAX
            &&& asked.last().verdict == Err::<Cost, EdgeValidationError>(reason)
        },
        Err(PathSpliceError::CostOverflow) => {
            &&& asked.len() > 0
            &&& all_accepted(asked)
            &&& validated_cost(asked.drop_last()) <= u32::MAX
            &&& validated_cost(asked) > u32::MAX
        },
        Err(_) => false,
    }
}

/// Validates every edge and regenerates the exact aggregate cost.
pub fn validate_structural_path<V: PathEdgeValidator + ?Sized>(
    structural: UnvalidatedStructuralPath,
    expected_scope: &WorldScope,
    expected_revisions: RouteRevisions,
    validator: &mut V,
) -> (outcome: Result<ValidatedPath, PathSpliceError>)
    ensures
        validation(
            structural.list(),
            *expected_scope,
            expected_revisions,
            old(validator).place(),
            old(validator).basis(),
            old(validator).tick(),
            old(validator).history(),
            final(validator).history(),
            outcome,
        ),
{
    if !validator.scope().is_same(expected_scope) {
        return Err(
            PathSpliceError::ValidatorScopeMismatch {
                expected: expected_scope.clone(),
                actual: validator.scope().clone(),
            },
        );
    }
    if !validator.revisions().is_same(expected_revisions) {
        return Err(
            PathSpliceError::ValidatorRevisionMismatch {
                expected: expected_revisions,
                actual: validator.revisions(),
            },
        );
    }
    let validated_at_tick: u64 = validator.validation_tick();
    if let Some(valid_until_tick) = expected_revisions.dynamic_obstacles.valid_until_tick {
        if validated_at_tick >= valid_until_tick {
            return Err(
                PathSpliceError::ValidatorEpochExpired { valid_until_tick, validated_at_tick },
            );
        }
    }
    let ghost earlier = validator.history();
    let ghost nodes = structural.nodes@;
    let ghost mut asked: Seq<EdgeVerdict> = Seq::empty();
    assert(earlier + asked =~= earlier);
    let mut total_cost: Cost = 0;
    let edges: usize = if structural.nodes.len() == 0 {
        0
    } else {
        structural.nodes.len() - 1
    };
    let mut edge: usize = 0;
    while edge < edges
        invariant
            nodes == structural.nodes@,
            edges == (if nodes.len() == 0 {
                0
            } else {
                nodes.len() - 1
            }),
            edge <= edges,
            earlier == old(validator).history(),
            validator.history() == earlier + asked,
            asked.len() == edge,
            asks_in_order(nodes, asked),
            all_accepted(asked),
            total_cost == validated_cost(asked),
            validator_refusal(
                old(validator).place(),
                old(validator).basis(),
                old(validator).tick(),
                *expected_scope,
                expected_revisions,
            ) is None,
        decreases edges - edge,
    {
        let from = structural.nodes[edge].pos;
        let next = structural.nodes[edge + 1];
        let verdict = validator.validate_edge(from, next.pos, next.reached_by);
        let ghost so_far = asked;
        proof {
            asked = asked.push(EdgeVerdict { from, to: next.pos, reached_by: next.reached_by, verdict });
            assert(validator.history() =~= earlier + asked);
            assert(asked.drop_last() =~= so_far);
            assert(validator.history().skip(earlier.len() as int) =~= asked);
            assert(validator.history().take(earlier.len() as int) =~= earlier);
        }
        match verdict {
            Err(reason) => {
                return Err(PathSpliceError::EdgeRejected { edge, reason });
            },
            Ok(edge_cost) => match total_cost.checked_add(edge_cost) {
                Some(sum) => {
                    total_cost = sum;
                },
                None => {
                    return Err(PathSpliceError::CostOverflow);
                },
            },
        }
        edge += 1;
    }
    assert(validator.history().skip(earlier.len() as int) =~= asked);
    assert(validator.history().take(earlier.len() as int) =~= earlier);
    Ok(
        ValidatedPath {
            path: Path { nodes: structural.nodes, total_cost },
            scope: expected_scope.clone(),
            revisions: expected_revisions,
            validated_at_tick,
        },
    )
}

/// The outcome of validating a node list, and what was asked on the way.
pub open spec fn validation(
    nodes: Seq<PathNode>,
    expected_scope: WorldScope,
    expected_revisions: RouteRevisions,
    place: WorldScope,
    basis: RouteRevisions,
    tick: u64,
    earlier: Seq<EdgeVerdict>,
    history: Seq<EdgeVerdict>,
    outcome: Result<ValidatedPath, PathSpliceError>,
) -> bool {
    match validator_refusal(place, basis, tick, expected_scope, expected_revisions) {
        Some(error) => history == earlier && outcome == Err::<ValidatedPath, PathSpliceError>(error),
        None => {
            &&& earlier.len() <= history.len()
            &&& history.take(earlier.len() as int) == earlier
            &&& priced(nodes, history.skip(earlier.len() as int), outcome)
            &&& outcome matches Ok(path) ==> path.place() == expected_scope && path.basis()
                == expected_revisions && path.tick() == tick
        },
    }
}

/// Splices a patch into a path and validates every edge of the result.
pub fn splice_path_validated<V: PathEdgeValidator + ?Sized>(
    original: &Path,
    start_node: usize,
    end_node: usize,
    patch: &Path,
    expected_scope: &WorldScope,
    expected_revisions: RouteRevisions,
    validator: &mut V,
) -> (outcome: Result<ValidatedPath, PathSpliceError>)
    ensures
        match splice_refusal(original.nodes@, start_node, end_node, patch.nodes@) {
            Some(error) => final(validator).history() == old(validator).history() && outcome
                == Err::<ValidatedPath, PathSpliceError>(error),
            None => validation(
                patched(original.nodes@, start_node, end_node, patch.nodes@),
                *expected_scope,
                expected_revisions,
                old(validator).place(),
                old(validator).basis(),
                old(validator).tick(),
                old(validator).history(),
                final(validator).history(),
                outcome,
            ) || (final(validator).history() == old(validator).history() && outcome == Err::<
                ValidatedPath,
                PathSpliceError,
            >(PathSpliceError::AllocationFailed)),
        },
{
    match structurally_splice_path(original, start_node, end_node, patch) {
        Ok(structural) => validate_structural_path(
            structural,
            expected_scope,
            expected_revisions,
            validator,
        ),
        Err(error) => Err(error),
    }
}

/// A validated path was accepted edge by edge: every edge was asked once, in
/// order, none was rejected, and its cost is the sum of the answers.
pub proof fn validated_paths_were_accepted(
    nodes: Seq<PathNode>,
    asked: Seq<EdgeVerdict>,
    path: ValidatedPath,
    edge: int,
)
    requires
        priced(nodes, asked, Ok(path)),
        0 <= edge < nodes.len() - 1,
    ensures
        asked[edge].from == nodes[edge].pos,
        asked[edge].to == nodes[edge + 1].pos,
        asked[edge].reached_by == nodes[edge + 1].reached_by,
        asked[edge].verdict is Ok,
        path.route().total_cost == validated_cost(asked),
{
}

} // verus!
