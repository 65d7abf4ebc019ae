//! Reverse lookup from world changes to the earliest route edge they affect.
use vstd::prelude::*;

use crate::local::moves::MoveContext;
use crate::pos::BlockPos;
use crate::pos_map::PosMap;
use crate::resilience::footprint;
use crate::resilience::footprint::{
    transition_dependency_footprint, DependencyFootprint, DependencyOptions,
};
use crate::resilience::overlay::OverlayEpoch;
use crate::resilience::scope::WorldScope;
use crate::types::{Path, PathNode};

verus! {

/// Maximum number of dependency-index entries retained for one path.
pub const MAX_INDEXED_DEPENDENCIES: usize = 1_000_000;

/// Frozen revisions against which a path and its dependency index were built.
#[derive(Clone, Copy, PartialEq, Eq, Debug)]
pub struct RouteRevisions {
    pub path: u64,
    pub world_basis: u64,
    pub cost_model: u64,
    pub dynamic_obstacles: OverlayEpoch,
}

impl RouteRevisions {
    pub fn is_same(self, other: RouteRevisions) -> (r: bool)
        ensures
            r == (self == other),
    {
        self.path == other.path && self.world_basis == other.world_basis && self.cost_model
            == other.cost_model && self.dynamic_obstacles.is_same(other.dynamic_obstacles)
    }
}

#[derive(Clone, Copy, PartialEq, Eq, Hash, Structural, Debug)]
pub struct ChunkColumn {
    pub x: i32,
    pub z: i32,
}

/// The chunk column a position lies in.
pub open spec fn chunk_of(at: BlockPos) -> ChunkColumn {
    ChunkColumn { x: (at.x as int / 16) as i32, z: (at.z as int / 16) as i32 }
}

/// A coordinate divided by the chunk width, rounded down.
fn chunk_coordinate(n: i32) -> (c: i32)
    ensures
        c == n as int / 16,
{
    if n >= 0 {
        n / 16
    } else {
        let above: i64 = -(n as i64) + 15;
        -((above / 16) as i32)
    }
}

impl ChunkColumn {
    pub fn containing(at: BlockPos) -> (column: ChunkColumn)
        ensures
            column == chunk_of(at),
            16 * column.x <= at.x < 16 * column.x + 16,
            16 * column.z <= at.z < 16 * column.z + 16,
    {
        ChunkColumn { x: chunk_coordinate(at.x), z: chunk_coordinate(at.z) }
    }
}

#[derive(Clone, Copy, PartialEq, Eq, Structural, Debug)]
pub enum ChunkChangeKind {
    Loaded,
    Unloaded,
}

#[derive(Clone, Copy, PartialEq, Eq, Structural, Debug)]
pub struct ChunkChange {
    pub column: ChunkColumn,
    pub kind: ChunkChangeKind,
}

/// A complete change interval since the world basis used for planning.
pub struct WorldChangeBatch<'a> {
    pub scope: &'a WorldScope,
    pub path_revision: u64,
    pub from_world_revision: u64,
    pub to_world_revision: u64,
    pub current_cost_model: u64,
    pub current_dynamic_obstacles: OverlayEpoch,
    pub now_tick: u64,
    pub changed_blocks: &'a [BlockPos],
    pub changed_chunks: &'a [ChunkChange],
}

#[derive(Clone, Copy, PartialEq, Eq, Structural, Debug)]
pub enum DependencyIndexError {
    EdgeOutOfRange { edge: usize, edge_count: usize },
}

#[allow(inconsistent_fields)]
#[derive(PartialEq, Eq, Debug)]
pub enum InvalidationError {
    ScopeMismatch { expected: WorldScope, actual: WorldScope },
    PathRevisionMismatch { expected: u64, actual: u64 },
    WorldContinuityMismatch { expected_from: u64, actual_from: u64 },
    WorldRevisionRegressed { from: u64, to: u64 },
    WorldChangeWithoutRevision { revision: u64 },
}

impl Clone for InvalidationError {
    fn clone(&self) -> (copy: InvalidationError)
        ensures
            copy == *self,
    {
        match self {
            InvalidationError::ScopeMismatch { expected, actual } => {
                InvalidationError::ScopeMismatch {
                    expected: expected.clone(),
                    actual: actual.clone(),
                }
            },
            InvalidationError::PathRevisionMismatch { expected, actual } => {
                InvalidationError::PathRevisionMismatch { expected: *expected, actual: *actual }
            },
            InvalidationError::WorldContinuityMismatch { expected_from, actual_from } => {
                InvalidationError::WorldContinuityMismatch {
                    expected_from: *expected_from,
                    actual_from: *actual_from,
                }
            },
            InvalidationError::WorldRevisionRegressed { from, to } => {
                InvalidationError::WorldRevisionRegressed { from: *from, to: *to }
            },
            InvalidationError::WorldChangeWithoutRevision { revision } => {
                InvalidationError::WorldChangeWithoutRevision { revision: *revision }
            },
        }
    }
}

/// Reverse lookup from changed block to the earliest path edge it may affect.
#[derive(Debug)]
pub struct PathDependencyIndex {
    scope: WorldScope,
    revisions: RouteRevisions,
    edge_count: usize,
    earliest_by_block: PosMap<usize>,
    indexed: usize,
    earliest_by_chunk: PosMap<usize>,
    broad_from_edge: Option<usize>,
}

impl Clone for PathDependencyIndex {
    fn clone(&self) -> (copy: PathDependencyIndex)
        ensures
            copy.home() == self.home(),
            copy.basis() == self.basis(),
            copy.edges() == self.edges(),
            copy.by_block() == self.by_block(),
            copy.by_chunk() == self.by_chunk(),
            copy.broad_edge() == self.broad_edge(),
            self.wf() ==> copy.wf(),
    {
        PathDependencyIndex {
            scope: self.scope.clone(),
            revisions: self.revisions,
            edge_count: self.edge_count,
            earliest_by_block: self.earliest_by_block.duplicate(),
            indexed: self.indexed,
            earliest_by_chunk: self.earliest_by_chunk.duplicate(),
            broad_from_edge: self.broad_from_edge,
        }
    }
}

/// The map key of a chunk column.
spec fn chunk_key(column: ChunkColumn) -> BlockPos {
    BlockPos { x: column.x, y: 0, z: column.z }
}

/// The blocks that the first `edges` edges depend on.
pub open spec fn needed_before(needs: Seq<Option<Set<BlockPos>>>, edges: int) -> Set<BlockPos> {
    Set::new(
        |at: BlockPos|
            exists|e: int| 0 <= e < edges && (#[trigger] needs[e]) is Some && needs[e]->0.contains(at),
    )
}

/// A set of blocks topped up from a list, in its order, up to a limit.
pub open spec fn topped_up(base: Set<BlockPos>, list: Seq<BlockPos>, maximum: usize) -> Set<BlockPos>
    decreases list.len(),
{
    if list.len() == 0 {
        base
    } else {
        let before = topped_up(base, list.drop_last(), maximum);
        if before.len() >= maximum {
            before
        } else {
            before.insert(list.last())
        }
    }
}

/// A set that is full takes nothing more.
proof fn lemma_topped_out(base: Set<BlockPos>, list: Seq<BlockPos>, maximum: usize, i: int)
    requires
        0 <= i <= list.len(),
        topped_up(base, list.take(i), maximum).len() >= maximum,
    ensures
        topped_up(base, list, maximum) == topped_up(base, list.take(i), maximum),
    decreases list.len() - i,
{
    if i == list.len() {
        assert(list.take(i) =~= list);
    } else {
        assert(list.take(i + 1).drop_last() =~= list.take(i));
        lemma_topped_out(base, list, maximum, i + 1);
    }
}

/// Whether `edge` is the first edge that depends on a block.
pub open spec fn first_need(needs: Seq<Option<Set<BlockPos>>>, at: BlockPos, edge: int) -> bool {
    &&& 0 <= edge < needs.len()
    &&& needs[edge] is Some
    &&& needs[edge]->0.contains(at)
    &&& forall|e: int|
        0 <= e < edge && (#[trigger] needs[e]) is Some ==> !needs[e]->0.contains(at)
}

impl PathDependencyIndex {
    pub closed spec fn home(self) -> WorldScope {
        self.scope
    }

    pub closed spec fn basis(self) -> RouteRevisions {
        self.revisions
    }

    pub closed spec fn edges(self) -> usize {
        self.edge_count
    }

    /// The earliest edge recorded for each block.
    pub closed spec fn by_block(self) -> Map<BlockPos, usize> {
        self.earliest_by_block@
    }

    /// The earliest edge recorded for each chunk column.
    pub closed spec fn by_chunk(self) -> Map<ChunkColumn, usize> {
        Map::new(
            |column: ChunkColumn| self.earliest_by_chunk@.contains_key(chunk_key(column)),
            |column: ChunkColumn| self.earliest_by_chunk@[chunk_key(column)],
        )
    }

    /// The first edge that every change may affect.
    pub closed spec fn broad_edge(self) -> Option<usize> {
        self.broad_from_edge
    }

    /// The invariant of an index: its size is known and bounded, and a chunk
    /// column is recorded with the earliest edge of its blocks.
    pub closed spec fn wf(self) -> bool {
        &&& self.by_block().dom().finite()
        &&& self.indexed == self.by_block().dom().len()
        &&& self.indexed <= MAX_INDEXED_DEPENDENCIES
        &&& self.chunked()
    }

    /// The first edge that nothing exact is recorded for.
    pub open spec fn stop(self, edges: int) -> int {
        match self.broad_edge() {
            Some(edge) => edge as int,
            None => edges,
        }
    }

    /// Whether the index covers the first `edges` edges of a route: blocks are
    /// recorded with the first edge that needs them, unless an edge is broad,
    /// from which on nothing more is recorded.
    pub open spec fn covers(self, needs: Seq<Option<Set<BlockPos>>>, edges: int) -> bool {
        let stop = self.stop(edges);
        &&& stop <= edges
        &&& forall|e: int| 0 <= e < stop ==> (#[trigger] needs[e]) is Some
        &&& forall|at: BlockPos| #[trigger]
            needed_before(needs, stop).contains(at) ==> self.by_block().contains_key(at)
                && first_need(needs, at, self.by_block()[at] as int)
        &&& forall|at: BlockPos| #[trigger]
            self.by_block().contains_key(at) ==> needed_before(needs, stop).contains(at) || (
            self.broad_edge() is Some && self.by_block()[at] == stop)
    }

    /// Whether the blocks of the edges before the broad one are recorded, and
    /// after them as many of the broad edge's own as fit.
    pub open spec fn holds(self, needs: Seq<Option<Set<BlockPos>>>, last: Seq<BlockPos>) -> bool {
        self.by_block().dom() == match self.broad_edge() {
            Some(edge) => topped_up(
                needed_before(needs, edge as int),
                last,
                MAX_INDEXED_DEPENDENCIES,
            ),
            None => needed_before(needs, needs.len() as int),
        }
    }

    /// Whether a chunk column is recorded with the earliest edge of its blocks.
    pub open spec fn chunked(self) -> bool {
        &&& forall|at: BlockPos| #[trigger]
            self.by_block().contains_key(at) ==> self.by_chunk().contains_key(chunk_of(at))
                && self.by_chunk()[chunk_of(at)] <= self.by_block()[at]
        &&& forall|column: ChunkColumn| #[trigger]
            self.by_chunk().contains_key(column) ==> exists|at: BlockPos| #[trigger]
                self.by_block().contains_key(at) && chunk_of(at) == column && self.by_block()[at]
                    == self.by_chunk()[column]
    }

    /// Whether the broad edge is where it has to be: at the first edge that
    /// every change may affect, or where the entries no longer fit.
    pub open spec fn broad_where_needed(self, needs: Seq<Option<Set<BlockPos>>>) -> bool {
        match self.broad_edge() {
            Some(edge) => {
                &&& edge < needs.len()
                &&& needs[edge as int] is None || !(needed_before(needs, edge + 1).finite()
                    && needed_before(needs, edge + 1).len() <= MAX_INDEXED_DEPENDENCIES)
            },
            None => needed_before(needs, needs.len() as int).finite() && needed_before(
                needs,
                needs.len() as int,
            ).len() <= MAX_INDEXED_DEPENDENCIES,
        }
    }

    pub fn scope(&self) -> (scope: &WorldScope)
        ensures
            *scope == self.home(),
    {
        &self.scope
    }

    pub fn revisions(&self) -> (revisions: RouteRevisions)
        ensures
            revisions == self.basis(),
    {
        self.revisions
    }

    pub fn edge_count(&self) -> (n: usize)
        ensures
            n == self.edges(),
    {
        self.edge_count
    }

    pub fn indexed_blocks(&self) -> (n: usize)
        requires
            self.wf(),
        ensures
            self.by_block().dom().finite(),
            n == self.by_block().dom().len(),
            n <= MAX_INDEXED_DEPENDENCIES,
    {
        self.indexed
    }

    fn empty(path: &Path, scope: WorldScope, revisions: RouteRevisions) -> (index:
        PathDependencyIndex)
        ensures
            index.wf(),
            index.home() == scope,
            index.basis() == revisions,
            index.edges() == edge_total(path.nodes@),
            index.by_block() == Map::<BlockPos, usize>::empty(),
            index.broad_edge() is None,
    {
        let index = PathDependencyIndex {
            scope,
            revisions,
            edge_count: if path.nodes.len() == 0 {
                0
            } else {
                path.nodes.len() - 1
            },
            earliest_by_block: PosMap::new(),
            indexed: 0,
            earliest_by_chunk: PosMap::new(),
            broad_from_edge: None,
        };
        assert(index.by_chunk() =~= Map::<ChunkColumn, usize>::empty());
        index
    }

    /// Marks `edge`, and so all after it, as affected by every change.
    fn mark_broad(&mut self, edge: usize)
        requires
            old(self).wf(),
        ensures
            final(self).wf(),
            final(self).home() == old(self).home(),
            final(self).basis() == old(self).basis(),
            final(self).edges() == old(self).edges(),
            final(self).by_block() == old(self).by_block(),
            final(self).by_chunk() == old(self).by_chunk(),
            final(self).broad_edge() == Some(
                match old(self).broad_edge() {
                    Some(earlier) if earlier <= edge => earlier,
                    _ => edge,
                },
            ),
    {
        let ghost before = *self;
        self.broad_from_edge =
        match self.broad_from_edge {
            Some(earlier) if earlier <= edge => Some(earlier),
            _ => Some(edge),
        };
        assert(self.by_chunk() =~= before.by_chunk());
    }

    /// Records that `edge` depends on one block, if there is room.
    fn record(&mut self, at: BlockPos, edge: usize) -> (fitted: bool)
        requires
            old(self).wf(),
        ensures
            final(self).wf(),
            final(self).home() == old(self).home(),
            final(self).basis() == old(self).basis(),
            final(self).edges() == old(self).edges(),
            final(self).broad_edge() == old(self).broad_edge(),
            fitted <==> old(self).by_block().contains_key(at) || old(self).by_block().dom().len()
                < MAX_INDEXED_DEPENDENCIES,
            !fitted ==> final(self).by_block() == old(self).by_block(),
            fitted ==> final(self).by_block() == old(self).by_block().insert(
                at,
                if old(self).by_block().contains_key(at) && old(self).by_block()[at] <= edge {
                    old(self).by_block()[at]
                } else {
                    edge
                },
            ),
    {
        let known: Option<usize> = match self.earliest_by_block.get(at) {
            Some(earlier) => Some(*earlier),
            None => None,
        };
        if known.is_none() && self.indexed >= MAX_INDEXED_DEPENDENCIES {
            return false;
        }
        let ghost before = *self;
        let ghost column = chunk_of(at);
        let earliest: usize = match known {
            Some(earlier) if earlier <= edge => earlier,
            _ => edge,
        };
        if known.is_none() {
            self.indexed = self.indexed + 1;
        }
        self.earliest_by_block.insert(at, earliest);
        let chunk = ChunkColumn::containing(at);
        let key = BlockPos { x: chunk.x, y: 0, z: chunk.z };
        let chunk_earliest: usize = match self.earliest_by_chunk.get(key) {
            Some(earlier) if *earlier <= edge => *earlier,
            _ => edge,
        };
        self.earliest_by_chunk.insert(key, chunk_earliest);
        proof {
            assert(key == chunk_key(column));
            assert(self.by_chunk() =~= before.by_chunk().insert(column, chunk_earliest));
            assert forall|other: ChunkColumn| #[trigger]
                self.by_chunk().contains_key(other) implies exists|p: BlockPos| #[trigger]
                self.by_block().contains_key(p) && chunk_of(p) == other && self.by_block()[p]
                    == self.by_chunk()[other] by {
                if other == column && chunk_earliest == edge && earliest == edge {
                    assert(self.by_block().contains_key(at));
                } else {
                    assert(before.by_chunk().contains_key(other));
                    let p = choose|p: BlockPos| #[trigger]
                        before.by_block().contains_key(p) && chunk_of(p) == other
                            && before.by_block()[p] == before.by_chunk()[other];
                    assert(self.by_block().contains_key(p));
                    if p == at {
                        assert(known is Some);
                    }
                }
            }
        }
        true
    }
}

pub open spec fn edge_total(nodes: Seq<PathNode>) -> int {
    if nodes.len() == 0 {
        0
    } else {
        nodes.len() - 1
    }
}

/// What one built-in transition depends on.
pub open spec fn edge_need(before: PathNode, after: PathNode, options: DependencyOptions) -> Option<
    Set<BlockPos>,
> {
    let cells = footprint::dependencies(before.pos, after.pos, after.reached_by, options.in_range());
    if footprint::traceable(before.pos, after.pos, after.reached_by) && footprint::fits(
        cells,
        options.in_range().max_blocks_per_edge,
    ) {
        Some(cells)
    } else {
        None
    }
}

/// What each edge of a path made of built-in moves depends on.
pub open spec fn builtin_needs(nodes: Seq<PathNode>, options: DependencyOptions) -> Seq<
    Option<Set<BlockPos>>,
> {
    Seq::new(edge_total(nodes) as nat, |e: int| edge_need(nodes[e], nodes[e + 1], options))
}

/// Whether `last` lists the blocks of the broad edge, if they are known, in
/// order of position.
pub open spec fn last_blocks(
    needs: Seq<Option<Set<BlockPos>>>,
    broad: Option<usize>,
    last: Seq<BlockPos>,
) -> bool {
    match broad {
        Some(edge) => match needs[edge as int] {
            Some(cells) => footprint::sorted(last) && last.to_set() == cells,
            None => last.len() == 0,
        },
        None => last.len() == 0,
    }
}

/// Whether `i` is the only footprint given for an edge.
pub open spec fn sole(footprints: Seq<DependencyFootprint>, edge: int, i: int) -> bool {
    &&& 0 <= i < footprints.len()
    &&& footprints[i].edge_index == edge
    &&& forall|j: int|
        0 <= j < footprints.len() && j != i ==> (#[trigger] footprints[j]).edge_index != edge
}

/// Whether a footprint says exactly which changes affect its edge.
pub open spec fn narrow(footprint: DependencyFootprint) -> bool {
    !footprint.is_broad() && footprint.listed().len() > 0
}

/// The blocks that a footprint adds to an index.
pub open spec fn given_blocks(footprint: DependencyFootprint) -> Seq<BlockPos> {
    if narrow(footprint) {
        footprint.listed()
    } else {
        Seq::empty()
    }
}

/// Whether `i` is the last footprint given for an edge, and fits its endpoints.
pub open spec fn counts_last(
    nodes: Seq<PathNode>,
    footprints: Seq<DependencyFootprint>,
    edge: int,
    i: int,
) -> bool {
    &&& 0 <= i < footprints.len()
    &&& footprints[i].edge_index == edge
    &&& footprints[i].from == nodes[edge].pos
    &&& footprints[i].to == nodes[edge + 1].pos
    &&& forall|j: int| i < j < footprints.len() ==> (#[trigger] footprints[j]).edge_index != edge
}

/// The blocks given for an edge: those of the last footprint given for it,
/// unless it is broad or lies elsewhere.
pub open spec fn supplied_blocks(
    nodes: Seq<PathNode>,
    footprints: Seq<DependencyFootprint>,
    edge: int,
) -> Seq<BlockPos> {
    if exists|i: int| #[trigger] counts_last(nodes, footprints, edge, i) {
        given_blocks(footprints[choose|i: int| #[trigger] counts_last(nodes, footprints, edge, i)])
    } else {
        Seq::empty()
    }
}

/// What each edge of a path depends on by the footprints given for it: an edge
/// without exactly one narrow footprint between its own endpoints is affected
/// by every change.
pub open spec fn supplied_needs(
    nodes: Seq<PathNode>,
    footprints: Seq<DependencyFootprint>,
) -> Seq<Option<Set<BlockPos>>> {
    Seq::new(
        edge_total(nodes) as nat,
        |e: int|
            if exists|i: int| #[trigger] supplies(nodes, footprints, e, i) {
                Some(footprints[choose|i: int| #[trigger] supplies(nodes, footprints, e, i)].covers())
            } else {
                None
            },
    )
}

pub open spec fn supplies(
    nodes: Seq<PathNode>,
    footprints: Seq<DependencyFootprint>,
    edge: int,
    i: int,
) -> bool {
    &&& sole(footprints, edge, i)
    &&& narrow(footprints[i])
    &&& footprints[i].from == nodes[edge].pos
    &&& footprints[i].to == nodes[edge + 1].pos
}

proof fn lemma_needed_step(needs: Seq<Option<Set<BlockPos>>>, edge: int)
    requires
        0 <= edge < needs.len(),
        needs[edge] is Some,
    ensures
        needed_before(needs, edge + 1) == needed_before(needs, edge).union(needs[edge]->0),
{
    assert(needed_before(needs, edge + 1) =~= needed_before(needs, edge).union(needs[edge]->0));
}

impl PathDependencyIndex {
    /// Every block needed by the first `edges` edges is recorded with its
    /// first edge, and nothing else is recorded.
    spec fn exact(self, needs: Seq<Option<Set<BlockPos>>>, edges: int) -> bool {
        &&& 0 <= edges <= needs.len()
        &&& forall|e: int| 0 <= e < edges ==> (#[trigger] needs[e]) is Some
        &&& self.by_block().dom() == needed_before(needs, edges)
        &&& forall|at: BlockPos| #[trigger]
            self.by_block().contains_key(at) ==> first_need(needs, at, self.by_block()[at] as int)
                && self.by_block()[at] < edges
    }

    /// `after` keeps every entry, and whatever it adds belongs to `edge`.
    spec fn extended(self, after: PathDependencyIndex, edge: usize) -> bool {
        &&& after.home() == self.home()
        &&& after.basis() == self.basis()
        &&& after.edges() == self.edges()
        &&& forall|at: BlockPos| #[trigger]
            self.by_block().contains_key(at) ==> after.by_block().contains_key(at)
                && after.by_block()[at] == self.by_block()[at]
        &&& forall|at: BlockPos| #[trigger]
            after.by_block().contains_key(at) ==> self.by_block().contains_key(at)
                || after.by_block()[at] == edge
    }

    fn add_footprint(
        &mut self,
        footprint: &DependencyFootprint,
        Ghost(needs): Ghost<Seq<Option<Set<BlockPos>>>>,
    )
        requires
            old(self).wf(),
            footprint.edge_index < needs.len(),
            old(self).exact(needs, footprint.edge_index as int),
            old(self).broad_edge() matches Some(edge) ==> edge >= footprint.edge_index,
            needs[footprint.edge_index as int] is Some ==> narrow(*footprint)
                && needs[footprint.edge_index as int]->0 == footprint.covers(),
        ensures
            final(self).wf(),
            old(self).extended(*final(self), footprint.edge_index),
            !narrow(*footprint) ==> final(self).broad_edge() == Some(footprint.edge_index),
            final(self).by_block().dom() == topped_up(
                old(self).by_block().dom(),
                given_blocks(*footprint),
                MAX_INDEXED_DEPENDENCIES,
            ),
            final(self).broad_edge() == old(self).broad_edge() || final(self).broad_edge() == Some(
                footprint.edge_index,
            ),
            needs[footprint.edge_index as int] is Some ==> if footprint::fits(
                needed_before(needs, footprint.edge_index + 1),
                MAX_INDEXED_DEPENDENCIES,
            ) {
                final(self).broad_edge() == old(self).broad_edge() && final(self).exact(
                    needs,
                    footprint.edge_index + 1,
                )
            } else {
                final(self).broad_edge() == Some(footprint.edge_index)
            },
    {
        let edge: usize = footprint.edge_index;
        if footprint.invalidate_on_any_change || footprint.blocks.len() == 0 {
            self.mark_broad(edge);
            return;
        }
        let ghost start = *self;
        let ghost listed = footprint.blocks@;
        let mut i: usize = 0;
        assert(listed.take(0) =~= Seq::<BlockPos>::empty());
        while i < footprint.blocks.len()
            invariant
                i <= footprint.blocks@.len(),
                listed == footprint.blocks@,
                edge == footprint.edge_index,
                start == *old(self),
                self.wf(),
                start.wf(),
                start.exact(needs, edge as int),
                start.broad_edge() matches Some(b) ==> b >= edge,
                start.extended(*self, edge),
                self.broad_edge() == start.broad_edge(),
                forall|at: BlockPos| #[trigger]
                    self.by_block().contains_key(at) <==> start.by_block().contains_key(at)
                        || listed.take(i as int).contains(at),
                self.by_block().dom() == topped_up(
                    start.by_block().dom(),
                    listed.take(i as int),
                    MAX_INDEXED_DEPENDENCIES,
                ),
                narrow(*footprint),
                edge < needs.len(),
                needs[edge as int] is Some ==> needs[edge as int]->0 == footprint.covers(),
            decreases footprint.blocks@.len() - i,
        {
            let at = footprint.blocks[i];
            let ghost before = *self;
            let fitted: bool = self.record(at, edge);
            if !fitted {
                proof {
                    lemma_topped_out(
                        start.by_block().dom(),
                        listed,
                        MAX_INDEXED_DEPENDENCIES,
                        i as int,
                    );
                    if needs[edge as int] is Some {
                        lemma_needed_step(needs, edge as int);
                        let all = needed_before(needs, edge + 1);
                        if footprint::fits(all, MAX_INDEXED_DEPENDENCIES) {
                            let have = before.by_block().dom();
                            assert(listed.contains(at));
                            assert(all.contains(at));
                            assert forall|p: BlockPos| have.contains(p) implies all.contains(p) by {
                                if !start.by_block().contains_key(p) {
                                    let k = choose|k: int|
                                        0 <= k < i && listed.take(i as int)[k] == p;
                                    assert(listed[k] == p);
                                    assert(footprint.covers().contains(p));
                                } else {
                                    assert(start.by_block().dom().contains(p));
                                }
                            }
                            vstd::set_lib::lemma_len_subset(have.insert(at), all);
                        }
                    }
                }
                self.mark_broad(edge);
                return;
            }
            proof {
                let longer = listed.take(i + 1);
                assert(longer =~= listed.take(i as int).push(at));
                assert(longer.drop_last() =~= listed.take(i as int));
                assert(self.by_block().dom() =~= before.by_block().dom().insert(at));
                assert(before.by_block().dom().len() >= MAX_INDEXED_DEPENDENCIES
                    ==> before.by_block().dom().insert(at) =~= before.by_block().dom());
                assert forall|p: BlockPos| #[trigger]
                    self.by_block().contains_key(p) <==> start.by_block().contains_key(p)
                        || longer.contains(p) by {
                    if listed.take(i as int).contains(p) {
                        let k = choose|k: int| 0 <= k < i && listed.take(i as int)[k] == p;
                        assert(longer[k] == p);
                    }
                    assert(longer[i as int] == at);
                }
                if start.by_block().contains_key(at) {
                    assert(start.by_block()[at] < edge);
                }
            }
            i += 1;
        }
        proof {
            assert(listed.take(i as int) =~= listed);
            if needs[edge as int] is Some {
                lemma_needed_step(needs, edge as int);
                assert(self.by_block().dom() =~= needed_before(needs, edge + 1));
                assert forall|at: BlockPos| #[trigger]
                    self.by_block().contains_key(at) implies first_need(
                    needs,
                    at,
                    self.by_block()[at] as int,
                ) && self.by_block()[at] < edge + 1 by {
                    if start.by_block().contains_key(at) {
                    } else {
                        assert(!needed_before(needs, edge as int).contains(at));
                        assert(footprint.covers().contains(at));
                        assert forall|e: int|
                            0 <= e < edge && (#[trigger] needs[e]) is Some implies !needs[e]->0.contains(
                            at,
                        ) by {}
                    }
                }
            }
        }
    }

    /// Builds inferred footprints for paths produced by this crate's built-in
    /// movement registry. Teleports and geometries outside built-in bounds
    /// become broad dependencies.
    pub fn build_builtin(
        path: &Path,
        scope: WorldScope,
        revisions: RouteRevisions,
        ctx: &MoveContext,
    ) -> (index: PathDependencyIndex)
        ensures
            index.wf(),
            index.home() == scope,
            index.basis() == revisions,
            index.edges() == edge_total(path.nodes@),
            index.covers(
                builtin_needs(path.nodes@, footprint::options_of(ctx)),
                edge_total(path.nodes@),
            ),
            index.broad_where_needed(builtin_needs(path.nodes@, footprint::options_of(ctx))),
            index.chunked(),
            exists|last: Seq<BlockPos>| #[trigger]
                index.holds(builtin_needs(path.nodes@, footprint::options_of(ctx)), last)
                    && last_blocks(
                    builtin_needs(path.nodes@, footprint::options_of(ctx)),
                    index.broad_edge(),
                    last,
                ),
    {
        let options = DependencyOptions::from_context(ctx);
        let ghost needs = builtin_needs(path.nodes@, options);
        let mut index = Self::empty(path, scope, revisions);
        let total: usize = index.edge_count;
        proof {
            assert(index.by_block().dom() =~= needed_before(needs, 0));
        }
        let mut edge: usize = 0;
        while edge < total
            invariant
                total == edge_total(path.nodes@) == needs.len(),
                edge <= total,
                needs == builtin_needs(path.nodes@, options),
                options == footprint::options_of(ctx),
                index.wf(),
                index.home() == scope,
                index.basis() == revisions,
                index.edges() == total,
                index.broad_edge() is None,
                index.exact(needs, edge as int),
            decreases total - edge,
        {
            let before = path.nodes[edge];
            let after = path.nodes[edge + 1];
            let footprint = transition_dependency_footprint(
                edge,
                before.pos,
                after.pos,
                after.reached_by,
                options,
            );
            let ghost start = index;
            assert(needs[edge as int] == edge_need(before, after, options));
            proof {
                if needs[edge as int] is Some {
                    footprint::narrow_footprints_cover_the_bodies(
                        footprint,
                        before.pos,
                        after.pos,
                        after.reached_by,
                        options,
                        before.pos,
                    );
                    assert(footprint.listed().len() > 0);
                }
            }
            index.add_footprint(&footprint, Ghost(needs));
            if index.broad_from_edge.is_some() {
                proof {
                    lemma_stopped(start, index, needs, edge);
                    let last = given_blocks(footprint);
                    assert(index.holds(needs, last));
                    assert(last_blocks(needs, index.broad_edge(), last));
                }
                return index;
            }
            edge += 1;
        }
        proof {
            let last = Seq::<BlockPos>::empty();
            assert(index.holds(needs, last));
            assert(last_blocks(needs, index.broad_edge(), last));
        }
        index
    }

    /// Safest fallback for a custom or otherwise untrusted motion registry.
    ///
    /// Without generator-authored dependencies, every world change may affect
    /// the first edge. This deliberately chooses extra replans over a false
    /// claim that a custom transition is independent of distant state.
    pub fn build_unknown(path: &Path, scope: WorldScope, revisions: RouteRevisions) -> (index:
        PathDependencyIndex)
        ensures
            index.wf(),
            index.home() == scope,
            index.basis() == revisions,
            index.edges() == edge_total(path.nodes@),
            index.by_block() == Map::<BlockPos, usize>::empty(),
            index.chunked(),
            index.broad_edge() == if edge_total(path.nodes@) > 0 {
                Some(0usize)
            } else {
                None
            },
    {
        let mut index = Self::empty(path, scope, revisions);
        if index.edge_count > 0 {
            index.mark_broad(0);
        }
        index
    }
}

/// An index that turned broad while recording `edge` covers the route.
proof fn lemma_stopped(
    start: PathDependencyIndex,
    end: PathDependencyIndex,
    needs: Seq<Option<Set<BlockPos>>>,
    edge: usize,
)
    requires
        edge < needs.len(),
        start.exact(needs, edge as int),
        start.extended(end, edge),
        end.broad_edge() == Some(edge),
    ensures
        end.covers(needs, needs.len() as int),
{
    assert forall|at: BlockPos| #[trigger]
        needed_before(needs, edge as int).contains(at) implies end.by_block().contains_key(at)
        && first_need(needs, at, end.by_block()[at] as int) by {
        assert(start.by_block().dom().contains(at));
        assert(start.by_block().contains_key(at));
    }
    assert forall|at: BlockPos| #[trigger]
        end.by_block().contains_key(at) implies needed_before(needs, edge as int).contains(at)
        || end.by_block()[at] == edge by {
        if start.by_block().contains_key(at) {
            assert(start.by_block().dom().contains(at));
        }
    }
}

/// Whether two of the first `count` footprints are given for one edge.
spec fn doubled(footprints: Seq<DependencyFootprint>, count: int, edge: int) -> bool {
    exists|j: int, k: int|
        0 <= j < k < count && (#[trigger] footprints[j]).edge_index == edge && (
        #[trigger] footprints[k]).edge_index == edge
}

/// The state of the grouping loop: the latest footprint of each edge.
spec fn grouped(
    footprints: Seq<DependencyFootprint>,
    count: int,
    latest: Seq<Option<usize>>,
) -> bool {
    forall|e: int|
        0 <= e < latest.len() ==> match #[trigger] latest[e] {
            Some(k) => k < count && footprints[k as int].edge_index == e && forall|j: int|
                k < j < count ==> (#[trigger] footprints[j]).edge_index != e,
            None => forall|j: int| 0 <= j < count ==> (#[trigger] footprints[j]).edge_index != e,
        }
}

/// Whether the broad edge is the earliest with two footprints.
spec fn earliest_doubled(
    footprints: Seq<DependencyFootprint>,
    count: int,
    broad: Option<usize>,
) -> bool {
    &&& broad matches Some(edge) ==> doubled(footprints, count, edge as int)
    &&& forall|e: int| #[trigger]
        doubled(footprints, count, e) ==> broad is Some && broad->0 <= e
}

/// The latest footprint of an edge is its only one, unless two were given.
proof fn lemma_supplied(
    nodes: Seq<PathNode>,
    footprints: Seq<DependencyFootprint>,
    edge: int,
    k: int,
)
    requires
        0 <= edge < edge_total(nodes),
        0 <= k < footprints.len(),
        footprints[k].edge_index == edge,
    ensures
        doubled(footprints, footprints.len() as int, edge) || !narrow(footprints[k])
            || footprints[k].from != nodes[edge].pos || footprints[k].to != nodes[edge + 1].pos
            ==> supplied_needs(nodes, footprints)[edge] is None,
        supplied_needs(nodes, footprints)[edge] is Some ==> narrow(footprints[k])
            && supplied_needs(nodes, footprints)[edge]->0 == footprints[k].covers(),
        !doubled(footprints, footprints.len() as int, edge) && narrow(footprints[k])
            && footprints[k].from == nodes[edge].pos && footprints[k].to == nodes[edge + 1].pos
            ==> supplied_needs(nodes, footprints)[edge] is Some,
{
    let n = footprints.len() as int;
    if exists|i: int| #[trigger] supplies(nodes, footprints, edge, i) {
        let i = choose|i: int| #[trigger] supplies(nodes, footprints, edge, i);
        assert(i == k);
        if doubled(footprints, n, edge) {
            let (a, b) = choose|a: int, b: int|
                0 <= a < b < n && (#[trigger] footprints[a]).edge_index == edge && (
                #[trigger] footprints[b]).edge_index == edge;
            assert(a == i && b == i);
        }
    } else if !doubled(footprints, n, edge) {
        assert(sole(footprints, edge, k)) by {
            assert forall|j: int| 0 <= j < n && j != k implies (
            #[trigger] footprints[j]).edge_index != edge by {
                if footprints[j].edge_index == edge {
                    if j < k {
                        assert(footprints[j].edge_index == edge && footprints[k].edge_index == edge);
                    } else {
                        assert(footprints[k].edge_index == edge && footprints[j].edge_index == edge);
                    }
                }
            }
        }
        assert(!supplies(nodes, footprints, edge, k));
    }
}

/// The latest footprint of an edge supplies its blocks when its endpoints fit.
proof fn lemma_last_supplied(
    nodes: Seq<PathNode>,
    footprints: Seq<DependencyFootprint>,
    edge: int,
    latest: Option<usize>,
)
    requires
        match latest {
            Some(k) => k < footprints.len() && footprints[k as int].edge_index == edge && forall|
                j: int,
            |
                k < j < footprints.len() ==> (#[trigger] footprints[j]).edge_index != edge,
            None => forall|j: int|
                0 <= j < footprints.len() ==> (#[trigger] footprints[j]).edge_index != edge,
        },
    ensures
        supplied_blocks(nodes, footprints, edge) == match latest {
            Some(k) => if footprints[k as int].from == nodes[edge].pos && footprints[k as int].to
                == nodes[edge + 1].pos {
                given_blocks(footprints[k as int])
            } else {
                Seq::empty()
            },
            None => Seq::empty(),
        },
{
    if exists|i: int| #[trigger] counts_last(nodes, footprints, edge, i) {
        let i = choose|i: int| #[trigger] counts_last(nodes, footprints, edge, i);
        assert(footprints[i].edge_index == edge);
        assert(latest is Some && i == latest->0);
    } else if latest is Some {
        assert(!counts_last(nodes, footprints, edge, latest->0 as int));
    }
}

impl PathDependencyIndex {
    /// Constructs an index from precomputed footprints.
    ///
    /// This is useful when a motion primitive supplies a footprint more exact
    /// than the built-in conservative geometry.
    pub fn from_footprints(
        path: &Path,
        scope: WorldScope,
        revisions: RouteRevisions,
        footprints: &[DependencyFootprint],
    ) -> (made: Result<PathDependencyIndex, DependencyIndexError>)
        ensures
            match made {
                Ok(index) => {
                    let needs = supplied_needs(path.nodes@, footprints@);
                    &&& forall|i: int|
                        0 <= i < footprints@.len() ==> (#[trigger] footprints@[i]).edge_index
                            < edge_total(path.nodes@)
                    &&& index.wf()
                    &&& index.home() == scope
                    &&& index.basis() == revisions
                    &&& index.edges() == edge_total(path.nodes@)
                    &&& index.covers(needs, edge_total(path.nodes@))
                    &&& index.broad_where_needed(needs)
                    &&& index.chunked()
                    &&& index.holds(
                        needs,
                        match index.broad_edge() {
                            Some(edge) => supplied_blocks(
                                path.nodes@,
                                footprints@,
                                edge as int,
                            ),
                            None => Seq::empty(),
                        },
                    )
                },
                Err(DependencyIndexError::EdgeOutOfRange { edge, edge_count }) => {
                    &&& edge_count == edge_total(path.nodes@)
                    &&& exists|i: int|
                        0 <= i < footprints@.len() && (#[trigger] footprints@[i]).edge_index == edge
                            && edge >= edge_count && (forall|j: int|
                            0 <= j < i ==> (#[trigger] footprints@[j]).edge_index < edge_count)
                },
            },
    {
        let ghost needs = supplied_needs(path.nodes@, footprints@);
        let ghost nodes = path.nodes@;
        let mut index = Self::empty(path, scope, revisions);
        let total: usize = index.edge_count;
        let mut latest: Vec<Option<usize>> = Vec::new();
        let mut e: usize = 0;
        while e < total
            invariant
                e <= total,
                latest@.len() == e,
                forall|k: int| 0 <= k < e ==> (#[trigger] latest@[k]) is None,
            decreases total - e,
        {
            latest.push(None);
            e += 1;
        }
        let mut i: usize = 0;
        while i < footprints.len()
            invariant
                i <= footprints@.len(),
                total == edge_total(path.nodes@) == latest@.len(),
                forall|j: int| 0 <= j < i ==> (#[trigger] footprints@[j]).edge_index < total,
                grouped(footprints@, i as int, latest@),
                earliest_doubled(footprints@, i as int, index.broad_edge()),
                index.broad_edge() matches Some(b) ==> b < total,
                index.wf(),
                index.home() == scope,
                index.basis() == revisions,
                index.edges() == total,
                index.by_block() == Map::<BlockPos, usize>::empty(),
            decreases footprints@.len() - i,
        {
            let edge: usize = footprints[i].edge_index;
            if edge >= total {
                return Err(DependencyIndexError::EdgeOutOfRange { edge, edge_count: total });
            }
            let ghost before = index.broad_edge();
            let repeated: bool = latest[edge].is_some();
            if repeated {
                index.mark_broad(edge);
            }
            proof {
                let n = i as int;
                if repeated {
                    let k = latest@[edge as int]->0 as int;
                    assert(footprints@[k].edge_index == edge && footprints@[n].edge_index == edge);
                    assert(doubled(footprints@, n + 1, edge as int));
                }
                if before is Some {
                    let b = before->0 as int;
                    let (x, y) = choose|x: int, y: int|
                        0 <= x < y < n && (#[trigger] footprints@[x]).edge_index == b && (
                        #[trigger] footprints@[y]).edge_index == b;
                    assert(doubled(footprints@, n + 1, b));
                }
                assert forall|d: int| #[trigger]
                    doubled(footprints@, n + 1, d) implies index.broad_edge() is Some
                    && index.broad_edge()->0 <= d by {
                    let (x, y) = choose|x: int, y: int|
                        0 <= x < y < n + 1 && (#[trigger] footprints@[x]).edge_index == d && (
                        #[trigger] footprints@[y]).edge_index == d;
                    if y < n {
                        assert(doubled(footprints@, n, d));
                    } else {
                        assert(d == edge);
                        assert(latest@[edge as int] is Some);
                    }
                }
            }
            latest.set(edge, Some(i));
            i += 1;
        }
        proof {
            assert(index.by_block().dom() =~= needed_before(needs, 0));
        }
        let mut edge: usize = 0;
        while edge < total
            invariant
                nodes == path.nodes@,
                needs == supplied_needs(nodes, footprints@),
                total == edge_total(nodes) == needs.len() == latest@.len(),
                edge <= total,
                grouped(footprints@, footprints@.len() as int, latest@),
                earliest_doubled(footprints@, footprints@.len() as int, index.broad_edge()),
                index.broad_edge() matches Some(b) ==> edge <= b < total,
                forall|j: int|
                    0 <= j < footprints@.len() ==> (#[trigger] footprints@[j]).edge_index < total,
                index.wf(),
                index.home() == scope,
                index.basis() == revisions,
                index.edges() == total,
                index.exact(needs, edge as int),
            decreases total - edge,
        {
            let from = path.nodes[edge].pos;
            let to = path.nodes[edge + 1].pos;
            let ghost start = index;
            let (usable, k): (bool, usize) = match latest[edge] {
                Some(k) => (footprints[k].from == from && footprints[k].to == to, k),
                None => (false, 0),
            };
            proof {
                if latest@[edge as int] is Some {
                    lemma_supplied(nodes, footprints@, edge as int, k as int);
                } else {
                    assert(needs[edge as int] is None) by {
                        if exists|x: int| #[trigger] supplies(nodes, footprints@, edge as int, x) {
                            let x = choose|x: int| #[trigger]
                                supplies(nodes, footprints@, edge as int, x);
                            assert(footprints@[x].edge_index == edge);
                        }
                    }
                }
            }
            if !usable {
                index.mark_broad(edge);
                proof {
                    lemma_stopped(start, index, needs, edge);
                    lemma_last_supplied(nodes, footprints@, edge as int, latest@[edge as int]);
                }
                return Ok(index);
            }
            index.add_footprint(&footprints[k], Ghost(needs));
            let stop: bool = match index.broad_from_edge {
                Some(b) => b <= edge,
                None => false,
            };
            if stop {
                proof {
                    if start.broad_edge() == Some(edge) {
                        assert(doubled(footprints@, footprints@.len() as int, edge as int));
                    }
                    lemma_stopped(start, index, needs, edge);
                    lemma_last_supplied(nodes, footprints@, edge as int, latest@[edge as int]);
                }
                return Ok(index);
            }
            proof {
                if doubled(footprints@, footprints@.len() as int, edge as int) {
                    assert(start.broad_edge()->0 <= edge);
                }
            }
            edge += 1;
        }
        Ok(index)
    }
}

/// Whether a batch of changes reaches an edge.
pub open spec fn touches(
    index: PathDependencyIndex,
    blocks: Seq<BlockPos>,
    chunks: Seq<ChunkChange>,
    edge: usize,
) -> bool {
    ||| index.broad_edge() == Some(edge)
    ||| exists|i: int|
        0 <= i < blocks.len() && index.by_block().contains_key(#[trigger] blocks[i])
            && index.by_block()[blocks[i]] == edge
    ||| exists|i: int|
        0 <= i < chunks.len() && index.by_chunk().contains_key((#[trigger] chunks[i]).column)
            && index.by_chunk()[chunks[i].column] == edge
}

/// Whether `earliest` is the first edge that a batch of changes reaches.
pub open spec fn earliest_touched(
    index: PathDependencyIndex,
    blocks: Seq<BlockPos>,
    chunks: Seq<ChunkChange>,
    earliest: Option<usize>,
) -> bool {
    match earliest {
        Some(edge) => touches(index, blocks, chunks, edge) && forall|other: usize| #[trigger]
            touches(index, blocks, chunks, other) ==> edge <= other,
        None => forall|other: usize| !#[trigger] touches(index, blocks, chunks, other),
    }
}

/// What an index says of a batch of changes.
pub open spec fn affected(
    index: PathDependencyIndex,
    batch: WorldChangeBatch,
    answer: Result<Option<usize>, InvalidationError>,
) -> bool {
    let basis = index.basis();
    let detailed = batch.changed_blocks@.len() > 0 || batch.changed_chunks@.len() > 0;
    if !batch.scope.same(index.home()) {
        answer == Err::<Option<usize>, InvalidationError>(
            InvalidationError::ScopeMismatch { expected: index.home(), actual: *batch.scope },
        )
    } else if batch.path_revision != basis.path {
        answer == Err::<Option<usize>, InvalidationError>(
            InvalidationError::PathRevisionMismatch {
                expected: basis.path,
                actual: batch.path_revision,
            },
        )
    } else if batch.from_world_revision != basis.world_basis {
        answer == Err::<Option<usize>, InvalidationError>(
            InvalidationError::WorldContinuityMismatch {
                expected_from: basis.world_basis,
                actual_from: batch.from_world_revision,
            },
        )
    } else if batch.to_world_revision < batch.from_world_revision {
        answer == Err::<Option<usize>, InvalidationError>(
            InvalidationError::WorldRevisionRegressed {
                from: batch.from_world_revision,
                to: batch.to_world_revision,
            },
        )
    } else if index.edges() == 0 {
        answer == Ok::<Option<usize>, InvalidationError>(None)
    } else if batch.current_cost_model != basis.cost_model || batch.current_dynamic_obstacles
        != basis.dynamic_obstacles || basis.dynamic_obstacles.expired(batch.now_tick) {
        answer == Ok::<Option<usize>, InvalidationError>(Some(0))
    } else if batch.to_world_revision == batch.from_world_revision {
        if detailed {
            answer == Err::<Option<usize>, InvalidationError>(
                InvalidationError::WorldChangeWithoutRevision {
                    revision: batch.from_world_revision,
                },
            )
        } else {
            answer == Ok::<Option<usize>, InvalidationError>(None)
        }
    } else if !detailed {
        answer == Ok::<Option<usize>, InvalidationError>(Some(0))
    } else {
        &&& answer is Ok
        &&& earliest_touched(index, batch.changed_blocks@, batch.changed_chunks@, answer->Ok_0)
    }
}

/// The earlier of two edges, where the first may be missing.
fn earlier(known: Option<usize>, edge: usize) -> (r: Option<usize>)
    ensures
        r == Some(
            match known {
                Some(k) if k <= edge => k,
                _ => edge,
            },
        ),
{
    match known {
        Some(k) if k <= edge => Some(k),
        _ => Some(edge),
    }
}

impl PathDependencyIndex {
    /// Returns the earliest edge touched by a complete change interval, or
    /// `None` when the interval is unrelated.
    ///
    /// The batch must identify the exact scope and frozen path/world/cost
    /// revisions used to build this index. A mismatch is rejected rather than
    /// accidentally validating a route against a different planning epoch. An
    /// unrelated interval moves the world basis to its end.
    pub fn earliest_affected(&mut self, batch: &WorldChangeBatch) -> (answer: Result<
        Option<usize>,
        InvalidationError,
    >)
        ensures
            affected(*old(self), *batch, answer),
            final(self).home() == old(self).home(),
            final(self).edges() == old(self).edges(),
            final(self).by_block() == old(self).by_block(),
            final(self).by_chunk() == old(self).by_chunk(),
            final(self).broad_edge() == old(self).broad_edge(),
            old(self).wf() ==> final(self).wf(),
            final(self).basis() == (RouteRevisions {
                world_basis: if answer == Ok::<Option<usize>, InvalidationError>(None) {
                    batch.to_world_revision
                } else {
                    old(self).basis().world_basis
                },
                ..old(self).basis()
            }),
    {
        if !batch.scope.is_same(&self.scope) {
            return Err(
                InvalidationError::ScopeMismatch {
                    expected: self.scope.clone(),
                    actual: batch.scope.clone(),
                },
            );
        }
        if batch.path_revision != self.revisions.path {
            return Err(
                InvalidationError::PathRevisionMismatch {
                    expected: self.revisions.path,
                    actual: batch.path_revision,
                },
            );
        }
        if batch.from_world_revision != self.revisions.world_basis {
            return Err(
                InvalidationError::WorldContinuityMismatch {
                    expected_from: self.revisions.world_basis,
                    actual_from: batch.from_world_revision,
                },
            );
        }
        if batch.to_world_revision < batch.from_world_revision {
            return Err(
                InvalidationError::WorldRevisionRegressed {
                    from: batch.from_world_revision,
                    to: batch.to_world_revision,
                },
            );
        }
        if self.edge_count == 0 {
            self.move_basis(batch.to_world_revision);
            return Ok(None);
        }
        // A cost or obstacle epoch change invalidates the complete route, not
        // the integrity of the change batch.
        if batch.current_cost_model != self.revisions.cost_model
            || !batch.current_dynamic_obstacles.is_same(self.revisions.dynamic_obstacles)
            || self.revisions.dynamic_obstacles.is_expired_at(batch.now_tick) {
            return Ok(Some(0));
        }
        let detailed: bool = batch.changed_blocks.len() > 0 || batch.changed_chunks.len() > 0;
        if batch.to_world_revision == batch.from_world_revision {
            if detailed {
                return Err(
                    InvalidationError::WorldChangeWithoutRevision {
                        revision: batch.from_world_revision,
                    },
                );
            }
            assert(self.revisions.world_basis == batch.to_world_revision);
            return Ok(None);
        }
        if !detailed {
            // A revision advanced without details may be a bulk chunk
            // replacement.
            return Ok(Some(0));
        }
        let earliest: Option<usize> = self.earliest_change(
            batch.changed_blocks,
            batch.changed_chunks,
        );
        if earliest.is_none() {
            self.move_basis(batch.to_world_revision);
        }
        Ok(earliest)
    }

    fn move_basis(&mut self, revision: u64)
        ensures
            final(self).home() == old(self).home(),
            final(self).edges() == old(self).edges(),
            final(self).by_block() == old(self).by_block(),
            final(self).by_chunk() == old(self).by_chunk(),
            final(self).broad_edge() == old(self).broad_edge(),
            old(self).wf() ==> final(self).wf(),
            final(self).basis() == (RouteRevisions { world_basis: revision, ..old(self).basis() }),
    {
        let ghost before = *self;
        self.revisions.world_basis = revision;
        assert(self.by_chunk() =~= before.by_chunk());
    }

    fn earliest_change(&self, blocks: &[BlockPos], chunks: &[ChunkChange]) -> (earliest: Option<
        usize,
    >)
        ensures
            earliest_touched(*self, blocks@, chunks@, earliest),
    {
        let mut earliest: Option<usize> = self.broad_from_edge;
        let ghost no_chunks = chunks@.take(0);
        let mut i: usize = 0;
        while i < blocks.len()
            invariant
                i <= blocks@.len(),
                no_chunks == chunks@.take(0),
                earliest_touched(*self, blocks@.take(i as int), no_chunks, earliest),
            decreases blocks@.len() - i,
        {
            let ghost was = earliest;
            let known: Option<usize> = match self.earliest_by_block.get(blocks[i]) {
                Some(edge) => Some(*edge),
                None => None,
            };
            if let Some(edge) = known {
                earliest = earlier(earliest, edge);
            }
            proof {
                let shorter = blocks@.take(i as int);
                let longer = blocks@.take(i + 1);
                assert(longer =~= shorter.push(blocks@[i as int]));
                assert forall|e: usize| #[trigger]
                    touches(*self, longer, no_chunks, e) <==> touches(*self, shorter, no_chunks, e)
                        || known == Some(e) by {
                    if touches(*self, shorter, no_chunks, e) && self.broad_edge() != Some(e) {
                        let k = choose|k: int|
                            0 <= k < shorter.len() && self.by_block().contains_key(
                                #[trigger] shorter[k],
                            ) && self.by_block()[shorter[k]] == e;
                        assert(longer[k] == shorter[k]);
                    }
                    if known == Some(e) {
                        assert(longer[i as int] == blocks@[i as int]);
                    }
                    if touches(*self, longer, no_chunks, e) && self.broad_edge() != Some(e) {
                        let k = choose|k: int|
                            0 <= k < longer.len() && self.by_block().contains_key(
                                #[trigger] longer[k],
                            ) && self.by_block()[longer[k]] == e;
                        if k < i {
                            assert(shorter[k] == longer[k]);
                        }
                    }
                }
            }
            i += 1;
        }
        proof {
            assert(blocks@.take(i as int) =~= blocks@);
        }
        let mut j: usize = 0;
        while j < chunks.len()
            invariant
                j <= chunks@.len(),
                earliest_touched(*self, blocks@, chunks@.take(j as int), earliest),
            decreases chunks@.len() - j,
        {
            let column = chunks[j].column;
            let key = BlockPos { x: column.x, y: 0, z: column.z };
            let known: Option<usize> = match self.earliest_by_chunk.get(key) {
                Some(edge) => Some(*edge),
                None => None,
            };
            if let Some(edge) = known {
                earliest = earlier(earliest, edge);
            }
            proof {
                let shorter = chunks@.take(j as int);
                let longer = chunks@.take(j + 1);
                assert(longer =~= shorter.push(chunks@[j as int]));
                assert(key == chunk_key(column));
                assert(known is Some <==> self.by_chunk().contains_key(column));
                assert forall|e: usize| #[trigger]
                    touches(*self, blocks@, longer, e) <==> touches(*self, blocks@, shorter, e)
                        || known == Some(e) by {
                    if exists|k: int|
                        0 <= k < shorter.len() && self.by_chunk().contains_key(
                            (#[trigger] shorter[k]).column,
                        ) && self.by_chunk()[shorter[k].column] == e {
                        let k = choose|k: int|
                            0 <= k < shorter.len() && self.by_chunk().contains_key(
                                (#[trigger] shorter[k]).column,
                            ) && self.by_chunk()[shorter[k].column] == e;
                        assert(longer[k] == shorter[k]);
                    }
                    if known == Some(e) {
                        assert(longer[j as int].column == column);
                    }
                    if exists|k: int|
                        0 <= k < longer.len() && self.by_chunk().contains_key(
                            (#[trigger] longer[k]).column,
                        ) && self.by_chunk()[longer[k].column] == e {
                        let k = choose|k: int|
                            0 <= k < longer.len() && self.by_chunk().contains_key(
                                (#[trigger] longer[k]).column,
                            ) && self.by_chunk()[longer[k].column] == e;
                        if k < j {
                            assert(shorter[k] == longer[k]);
                        }
                    }
                }
            }
            j += 1;
        }
        proof {
            assert(chunks@.take(j as int) =~= chunks@);
        }
        earliest
    }
}

/// Invalidation is conservative: a change to a block that some edge depends on
/// is reported at that edge or an earlier one.
pub proof fn needed_changes_are_reported(
    index: PathDependencyIndex,
    needs: Seq<Option<Set<BlockPos>>>,
    blocks: Seq<BlockPos>,
    chunks: Seq<ChunkChange>,
    earliest: Option<usize>,
    edge: int,
    i: int,
)
    requires
        index.covers(needs, needs.len() as int),
        earliest_touched(index, blocks, chunks, earliest),
        0 <= edge < needs.len(),
        0 <= i < blocks.len(),
        needs[edge] matches Some(cells) ==> cells.contains(blocks[i]),
    ensures
        earliest is Some,
        earliest->0 <= edge,
{
    let at = blocks[i];
    let stop = index.stop(needs.len() as int);
    if edge < stop {
        assert(needs[edge] is Some);
        assert(needed_before(needs, stop).contains(at));
        let recorded = index.by_block()[at];
        assert(touches(index, blocks, chunks, recorded));
        assert(first_need(needs, at, recorded as int));
    } else {
        let broad = index.broad_edge()->0;
        assert(touches(index, blocks, chunks, broad));
    }
}

/// A loaded or unloaded chunk is reported at the first edge that depends on
/// any of its blocks, or an earlier one.
pub proof fn needed_chunks_are_reported(
    index: PathDependencyIndex,
    needs: Seq<Option<Set<BlockPos>>>,
    blocks: Seq<BlockPos>,
    chunks: Seq<ChunkChange>,
    earliest: Option<usize>,
    edge: int,
    at: BlockPos,
    i: int,
)
    requires
        index.wf(),
        index.covers(needs, needs.len() as int),
        earliest_touched(index, blocks, chunks, earliest),
        0 <= edge < needs.len(),
        0 <= i < chunks.len(),
        needs[edge] matches Some(cells) ==> cells.contains(at),
        chunks[i].column == chunk_of(at),
    ensures
        earliest is Some,
        earliest->0 <= edge,
{
    let stop = index.stop(needs.len() as int);
    if edge < stop {
        assert(needs[edge] is Some);
        assert(needed_before(needs, stop).contains(at));
        let recorded = index.by_block()[at];
        assert(first_need(needs, at, recorded as int));
        let reported = index.by_chunk()[chunk_of(at)];
        assert(touches(index, blocks, chunks, reported));
    } else {
        let broad = index.broad_edge()->0;
        assert(touches(index, blocks, chunks, broad));
    }
}

} // verus!
