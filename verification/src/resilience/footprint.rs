//! Which blocks can affect one transition of a route.
use vstd::prelude::*;

use crate::arith;
use crate::arith::{abs_diff_i32, saturating_add_i32, saturating_sub_i32};
use crate::frontier;
use crate::frontier::{Frontier, OpenEntry};
use crate::local::moves::{LavaPolicy, MoveContext, MAX_LAVA_SCAN_RADIUS};
use crate::local::rules::parkour;
use crate::local::world;
use crate::local::world::offset;
use crate::pos;
use crate::pos::BlockPos;
use crate::resilience::cells;
use crate::resilience::cells::FootprintBuilder;
use crate::types::{copied, MoveKind};

verus! {

/// Maximum number of block dependencies retained for one path edge.
///
/// If a conservative footprint exceeds this bound, the edge is marked broad
/// and any block update invalidates it. Losing precision is safe; allocating
/// without a bound is not.
pub const MAX_DEPENDENCIES_PER_EDGE: usize = 32_768;

pub const MAX_SAMPLED_TRANSITION_LENGTH: u32 = 128;

/// Settings used to conservatively enumerate which blocks can affect an edge.
#[derive(Clone, Copy, PartialEq, Eq, Structural, Debug)]
pub struct DependencyOptions {
    /// Radius whose lava changes can alter the safety or cost of the edge.
    pub hazard_radius: i32,
    /// Local radius for collision, wall, water, and partial-block changes.
    pub local_neighborhood_radius: i32,
    /// Per-edge memory bound. Exceeding it produces a broad dependency.
    pub max_blocks_per_edge: usize,
}

impl Default for DependencyOptions {
    fn default() -> (options: DependencyOptions)
        ensures
            options == (DependencyOptions {
                hazard_radius: 4,
                local_neighborhood_radius: 1,
                max_blocks_per_edge: MAX_DEPENDENCIES_PER_EDGE,
            }),
    {
        DependencyOptions {
            hazard_radius: 4,
            local_neighborhood_radius: 1,
            max_blocks_per_edge: MAX_DEPENDENCIES_PER_EDGE,
        }
    }
}

/// `n` limited to `low..=high`.
pub open spec fn limited(n: int, low: int, high: int) -> int {
    if n < low {
        low
    } else if n > high {
        high
    } else {
        n
    }
}

fn limit_i32(n: i32, low: i32, high: i32) -> (r: i32)
    ensures
        r == limited(n as int, low as int, high as int),
{
    if n < low {
        low
    } else if n > high {
        high
    } else {
        n
    }
}

/// The dependency settings of a planning context: hazards reach as far as the
/// wider of its two lava radii.
pub open spec fn options_of(ctx: &MoveContext) -> DependencyOptions {
    let clearance = match ctx.lava_policy {
        LavaPolicy::Forbidden { clearance } => clearance as int,
        LavaPolicy::Penalized => 0,
    };
    DependencyOptions {
        hazard_radius: limited(
            arith::max_int(clearance, ctx.lava_proximity_radius as int),
            0,
            MAX_LAVA_SCAN_RADIUS as int,
        ) as i32,
        local_neighborhood_radius: 1,
        max_blocks_per_edge: MAX_DEPENDENCIES_PER_EDGE,
    }
}

impl DependencyOptions {
    pub fn from_context(ctx: &MoveContext) -> (options: DependencyOptions)
        ensures
            options == options_of(ctx),
    {
        let clearance: i32 = match ctx.lava_policy {
            LavaPolicy::Forbidden { clearance } => clearance,
            LavaPolicy::Penalized => 0,
        };
        let widest: i32 = if clearance >= ctx.lava_proximity_radius {
            clearance
        } else {
            ctx.lava_proximity_radius
        };
        DependencyOptions {
            hazard_radius: limit_i32(widest, 0, MAX_LAVA_SCAN_RADIUS),
            local_neighborhood_radius: 1,
            max_blocks_per_edge: MAX_DEPENDENCIES_PER_EDGE,
        }
    }

    /// The options with every setting inside its supported range.
    pub open spec fn in_range(self) -> DependencyOptions {
        DependencyOptions {
            hazard_radius: limited(self.hazard_radius as int, 0, MAX_LAVA_SCAN_RADIUS as int) as i32,
            local_neighborhood_radius: limited(self.local_neighborhood_radius as int, 0, 2) as i32,
            max_blocks_per_edge: limited(
                self.max_blocks_per_edge as int,
                1,
                MAX_DEPENDENCIES_PER_EDGE as int,
            ) as usize,
        }
    }

    fn sanitized(self) -> (options: DependencyOptions)
        ensures
            options == self.in_range(),
            0 <= options.hazard_radius <= MAX_LAVA_SCAN_RADIUS,
            0 <= options.local_neighborhood_radius <= 2,
            1 <= options.max_blocks_per_edge <= MAX_DEPENDENCIES_PER_EDGE,
    {
        DependencyOptions {
            hazard_radius: limit_i32(self.hazard_radius, 0, MAX_LAVA_SCAN_RADIUS),
            local_neighborhood_radius: limit_i32(self.local_neighborhood_radius, 0, 2),
            max_blocks_per_edge: if self.max_blocks_per_edge < 1 {
                1
            } else if self.max_blocks_per_edge > MAX_DEPENDENCIES_PER_EDGE {
                MAX_DEPENDENCIES_PER_EDGE
            } else {
                self.max_blocks_per_edge
            },
        }
    }
}

/// Positions strictly increase along the sequence.
pub open spec fn sorted(blocks: Seq<BlockPos>) -> bool {
    forall|i: int, j: int|
        0 <= i < j < blocks.len() ==> pos::pos_before(#[trigger] blocks[i], #[trigger] blocks[j])
}

/// Blocks whose state may affect a single transition.
#[derive(PartialEq, Eq, Debug)]
pub struct DependencyFootprint {
    pub edge_index: usize,
    pub from: BlockPos,
    pub to: BlockPos,
    pub blocks: Vec<BlockPos>,
    pub invalidate_on_any_change: bool,
}

impl Clone for DependencyFootprint {
    fn clone(&self) -> (copy: DependencyFootprint)
        ensures
            copy == (DependencyFootprint { blocks: copy.blocks, ..*self }),
            copy.listed() == self.listed(),
    {
        DependencyFootprint {
            edge_index: self.edge_index,
            from: self.from,
            to: self.to,
            blocks: copied(&self.blocks),
            invalidate_on_any_change: self.invalidate_on_any_change,
        }
    }
}

impl DependencyFootprint {
    /// The blocks, in order of position.
    pub open spec fn listed(self) -> Seq<BlockPos> {
        self.blocks@
    }

    pub open spec fn covers(self) -> Set<BlockPos> {
        self.listed().to_set()
    }

    /// Whether every change affects the transition.
    pub open spec fn is_broad(self) -> bool {
        self.invalidate_on_any_change
    }

    /// Blocks are listed once each and in order.
    pub open spec fn wf(self) -> bool {
        sorted(self.listed())
    }

    /// Creates an explicitly broad footprint for an unknown/custom primitive.
    pub fn broad(edge_index: usize, from: BlockPos, to: BlockPos) -> (footprint:
        DependencyFootprint)
        ensures
            footprint.wf(),
            footprint.edge_index == edge_index,
            footprint.from == from,
            footprint.to == to,
            footprint.listed() == Seq::<BlockPos>::empty(),
            footprint.is_broad(),
    {
        DependencyFootprint {
            edge_index,
            from,
            to,
            blocks: Vec::new(),
            invalidate_on_any_change: true,
        }
    }

    pub fn blocks(&self) -> (blocks: &[BlockPos])
        ensures
            blocks@ == self.listed(),
    {
        self.blocks.as_slice()
    }

    pub fn contains(&self, at: BlockPos) -> (r: bool)
        requires
            self.wf(),
        ensures
            r == self.covers().contains(at),
    {
        let mut lo: usize = 0;
        let mut hi: usize = self.blocks.len();
        while lo < hi
            invariant
                lo <= hi <= self.blocks@.len(),
                sorted(self.blocks@),
                forall|i: int| 0 <= i < lo ==> pos::pos_before(#[trigger] self.blocks@[i], at),
                forall|i: int|
                    hi <= i < self.blocks@.len() ==> !pos::pos_before(
                        #[trigger] self.blocks@[i],
                        at,
                    ),
            decreases hi - lo,
        {
            let mid: usize = lo + (hi - lo) / 2;
            if self.blocks[mid].before(at) {
                lo = mid + 1;
            } else {
                hi = mid;
            }
        }
        let found: bool = lo < self.blocks.len() && self.blocks[lo] == at;
        proof {
            if found {
                assert(self.blocks@[lo as int] == at);
            } else if self.covers().contains(at) {
                let i = choose|i: int| 0 <= i < self.blocks@.len() && self.blocks@[i] == at;
                assert(lo <= i);
                if lo < i {
                    assert(pos::pos_before(self.blocks@[lo as int], self.blocks@[i]));
                }
            }
        }
        found
    }

    /// True when the exact conservative set exceeded its allocation bound.
    pub fn invalidates_on_any_change(&self) -> (r: bool)
        ensures
            r == self.is_broad(),
    {
        self.invalidate_on_any_change
    }
}

/// The blocks of one list in order of position.
fn sort_positions(blocks: &Vec<BlockPos>) -> (out: Vec<BlockPos>)
    requires
        blocks@.no_duplicates(),
    ensures
        sorted(out@),
        out@.to_set() == blocks@.to_set(),
        out@.len() == blocks@.len(),
{
    let mut queue = Frontier::new();
    let mut i: usize = 0;
    while i < blocks.len()
        invariant
            i <= blocks@.len(),
            blocks@.no_duplicates(),
            queue@.len() == i,
            forall|e: OpenEntry| #[trigger]
                queue@.count(e) > 0 ==> e == waiting(e.pos) && queue@.count(e) == 1 && (exists|j: int|
                    0 <= j < i && (#[trigger] blocks@[j]) == e.pos),
            forall|j: int| 0 <= j < i ==> queue@.count(waiting(#[trigger] blocks@[j])) == 1,
        decreases blocks@.len() - i,
    {
        let block = blocks[i];
        queue.push(OpenEntry { f: 0, tie: 0, pos: block, g: 0 });
        i += 1;
    }
    let mut out: Vec<BlockPos> = Vec::new();
    let ghost all_waiting = queue@;
    let mut next = queue.pop();
    proof {
        assert forall|e: OpenEntry| #[trigger] queue@.count(e) > 0 && next is Some implies frontier::entry_le(
            next->0,
            e,
        ) by {
            assert(all_waiting.contains(e));
        }
    }
    while next.is_some()
        invariant
            sorted(out@),
            out@.len() + queue@.len() + (if next is Some { 1int } else { 0 }) == blocks@.len(),
            next is None ==> queue@.len() == 0,
            forall|k: int| 0 <= k < out@.len() ==> blocks@.contains(#[trigger] out@[k]),
            next is Some ==> next->0 == waiting(next->0.pos) && queue@.count(next->0) == 0
                && blocks@.contains(next->0.pos),
            forall|e: OpenEntry| #[trigger]
                queue@.count(e) > 0 ==> e == waiting(e.pos) && queue@.count(e) == 1
                    && blocks@.contains(e.pos) && (next is Some ==> frontier::entry_le(next->0, e)),
            forall|k: int|
                0 <= k < out@.len() && next is Some ==> pos::pos_before(
                    #[trigger] out@[k],
                    next->0.pos,
                ),
            forall|j: int|
                0 <= j < blocks@.len() ==> out@.contains(#[trigger] blocks@[j]) || queue@.count(
                    waiting(blocks@[j]),
                ) > 0 || (next is Some && next->0.pos == blocks@[j]),
        decreases queue@.len() + (if next is Some { 1int } else { 0 }),
    {
        let ghost taken = next->0;
        let ghost before = out@;
        let ghost waiting_before = queue@;
        if let Some(entry) = next {
            out.push(entry.pos);
        }
        assert(out@ == before.push(taken.pos));
        next = queue.pop();
        proof {
            assert forall|j: int| 0 <= j < blocks@.len() implies out@.contains(
                #[trigger] blocks@[j],
            ) || queue@.count(waiting(blocks@[j])) > 0 || (next is Some && next->0.pos
                == blocks@[j]) by {
                if before.contains(blocks@[j]) {
                    let k = choose|k: int| 0 <= k < before.len() && before[k] == blocks@[j];
                    assert(out@[k] == blocks@[j]);
                } else if taken.pos == blocks@[j] {
                    assert(out@[before.len() as int] == blocks@[j]);
                }
            }
            if next is Some {
                assert(waiting_before.count(next->0) > 0);
            }
            assert forall|e: OpenEntry| #[trigger]
                queue@.count(e) > 0 && next is Some implies frontier::entry_le(next->0, e) by {
                assert(waiting_before.contains(e));
            }
        }
    }
    proof {
        assert(out@.to_set() =~= blocks@.to_set()) by {
            assert forall|at: BlockPos| blocks@.contains(at) implies out@.contains(at) by {
                let j = choose|j: int| 0 <= j < blocks@.len() && blocks@[j] == at;
                assert(out@.contains(blocks@[j]) || queue@.count(waiting(blocks@[j])) > 0);
            }
            assert forall|at: BlockPos| out@.contains(at) implies blocks@.contains(at) by {
                let k = choose|k: int| 0 <= k < out@.len() && out@[k] == at;
                assert(blocks@.contains(out@[k]));
            }
        }
    }
    out
}

/// The queue entry of a position.
spec fn waiting(at: BlockPos) -> OpenEntry {
    OpenEntry { f: 0, tie: 0, pos: at, g: 0 }
}

/// How far apart two positions are on their widest axis.
pub open spec fn axis_span(from: BlockPos, to: BlockPos) -> int {
    arith::max_int(
        arith::max_int(arith::abs_int(to.x - from.x), arith::abs_int(to.y - from.y)),
        arith::abs_int(to.z - from.z),
    )
}

/// `n / d` rounded towards zero.
pub open spec fn toward_zero(n: int, d: int) -> int {
    if n >= 0 {
        n / d
    } else {
        -((-n) / d)
    }
}

/// The block `step` of `steps` along the straight line between two positions.
pub open spec fn on_line(from: BlockPos, to: BlockPos, step: int, steps: int) -> BlockPos {
    BlockPos {
        x: (from.x + toward_zero((to.x - from.x) * step, steps)) as i32,
        y: (from.y + toward_zero((to.y - from.y) * step, steps)) as i32,
        z: (from.z + toward_zero((to.z - from.z) * step, steps)) as i32,
    }
}

/// One block per step along the widest axis, both ends among them.
pub open spec fn transition_line(from: BlockPos, to: BlockPos) -> Seq<BlockPos> {
    let steps = axis_span(from, to);
    if steps == 0 {
        seq![from]
    } else {
        Seq::new((steps + 1) as nat, |step: int| on_line(from, to, step, steps))
    }
}

/// Whether a movement kind can connect two positions as the built-in rules
/// generate it.
pub open spec fn known_geometry(from: BlockPos, to: BlockPos, kind: MoveKind) -> bool {
    let dy = to.y - from.y;
    let ax = arith::abs_int(to.x - from.x);
    let ay = arith::abs_int(dy);
    let az = arith::abs_int(to.z - from.z);
    let straight = (ax > 0) != (az > 0);
    let diagonal = ax > 0 && az > 0;
    let adjacent = ax <= 1 && az <= 1;
    match kind {
        MoveKind::Start | MoveKind::Aotv | MoveKind::Etherwarp => false,
        MoveKind::Walk => adjacent && ((straight && ay <= 1) || (diagonal && dy == 0)),
        MoveKind::Jump => adjacent && straight && dy == 1,
        MoveKind::Fall => adjacent && straight && dy < 0,
        MoveKind::Parkour { blocks, rise } => {
            let squared = ax * ax + az * az;
            4 <= squared <= 16 && rise == dy && blocks == parkour::travel_blocks(squared)
        },
        MoveKind::Climb => adjacent && ((ax == 0 && az == 0 && ay == 1) || (straight && (dy == 0
            || dy == 1))),
        MoveKind::Swim => adjacent && ay <= 1 && !diagonal && ax + ay + az > 0,
    }
}

/// Whether the cells of a transition can be enumerated: its geometry is a
/// built-in one and it is not too long to sample.
pub open spec fn traceable(from: BlockPos, to: BlockPos, kind: MoveKind) -> bool {
    known_geometry(from, to, kind) && axis_span(from, to) <= MAX_SAMPLED_TRANSITION_LENGTH
}

/// Both orthogonal body columns of a diagonal.
pub open spec fn corner_cells(from: BlockPos, to: BlockPos) -> Set<BlockPos> {
    cells::body_cells(BlockPos { x: to.x, y: from.y, z: from.z }).union(
        cells::body_cells(BlockPos { x: from.x, y: from.y, z: to.z }),
    )
}

/// Every cell between two positions, from below the lower one to the head room
/// above the higher one.
pub open spec fn prism_cells(from: BlockPos, to: BlockPos) -> Set<BlockPos> {
    Set::new(
        |cell: BlockPos|
            {
                &&& arith::min_int(from.x as int, to.x as int) <= cell.x <= arith::max_int(
                    from.x as int,
                    to.x as int,
                )
                &&& arith::min_int(from.z as int, to.z as int) <= cell.z <= arith::max_int(
                    from.z as int,
                    to.z as int,
                )
                &&& arith::min_int(from.y as int, to.y as int) - 1 <= cell.y <= arith::max_int(
                    from.y as int,
                    to.y as int,
                ) + 3
            },
    )
}

/// The bodies of one place to run up from, across one block of vertical
/// variation.
pub open spec fn approach_cells(from: BlockPos, bx: int, bz: int) -> Set<BlockPos> {
    cells::given(
        bx != 0 || bz != 0,
        cells::body_cells(world::shift(from, bx, -1, bz)).union(
            cells::body_cells(world::shift(from, bx, 0, bz)),
        ).union(cells::body_cells(world::shift(from, bx, 1, bz))),
    )
}

pub open spec fn sign(n: int) -> int {
    if n > 0 {
        1
    } else if n < 0 {
        -1
    } else {
        0
    }
}

/// The places `back` blocks behind a jump: straight behind it, or behind
/// either cardinal half of a diagonal.
pub open spec fn run_up_cells(from: BlockPos, to: BlockPos, back: int) -> Set<BlockPos> {
    let bx = -sign(to.x - from.x) * back;
    let bz = -sign(to.z - from.z) * back;
    approach_cells(from, bx, bz).union(approach_cells(from, bx, 0)).union(
        approach_cells(from, 0, bz),
    )
}

/// The landing column of a fall.
pub open spec fn descent_cells(from: BlockPos, to: BlockPos) -> Set<BlockPos> {
    Set::new(
        |cell: BlockPos|
            exists|y: i32|
                arith::min_int(from.y as int, to.y as int) <= y <= arith::max_int(
                    from.y as int,
                    to.y as int,
                ) && cells::body_cells(#[trigger] column(to, y)).contains(cell),
    )
}

pub open spec fn column(at: BlockPos, y: i32) -> BlockPos {
    BlockPos { x: at.x, y, z: at.z }
}

/// A body and the four cardinal bodies beside it.
pub open spec fn attached_cells(at: BlockPos) -> Set<BlockPos> {
    cells::body_cells(at).union(cells::body_cells(world::shift(at, 1, 0, 0))).union(
        cells::body_cells(world::shift(at, -1, 0, 0)),
    ).union(cells::body_cells(world::shift(at, 0, 0, 1))).union(
        cells::body_cells(world::shift(at, 0, 0, -1)),
    )
}

/// Two blocks of clearance above a body.
pub open spec fn raised_cells(at: BlockPos) -> Set<BlockPos> {
    cells::body_cells(world::shift(at, 0, 1, 0)).union(
        cells::body_cells(world::shift(at, 0, 2, 0)),
    )
}

pub open spec fn endpoint_cells(from: BlockPos, to: BlockPos) -> Set<BlockPos> {
    cells::body_cells(from).union(cells::body_cells(to))
}

/// What every kind of transition depends on before its own geometry: the
/// bodies along the line with their surroundings, and diagonal corners.
pub open spec fn corridor_cells(from: BlockPos, to: BlockPos, radius: int) -> Set<BlockPos> {
    endpoint_cells(from, to).union(
        cells::swept(
            transition_line(from, to),
            |at: BlockPos| cells::body_cells(at).union(cells::near_cells(at, radius)),
        ),
    ).union(cells::given(from.x != to.x && from.z != to.z, corner_cells(from, to)))
}

/// What the geometry of one movement kind depends on.
pub open spec fn kind_cells(from: BlockPos, to: BlockPos, kind: MoveKind) -> Set<BlockPos> {
    let line = transition_line(from, to);
    cells::given(
        kind is Jump || kind is Parkour,
        cells::swept(line, |at: BlockPos| raised_cells(at)),
    ).union(
        cells::given(
            kind is Parkour,
            prism_cells(from, to).union(run_up_cells(from, to, 1)).union(run_up_cells(from, to, 2)),
        ),
    ).union(cells::given(kind is Fall, descent_cells(from, to))).union(
        cells::given(kind is Climb, cells::swept(line, |at: BlockPos| attached_cells(at))),
    ).union(
        cells::given(kind is Swim, cells::swept(line, |at: BlockPos| cells::near_cells(at, 1))),
    )
}

/// The landing neighborhood and the lava safety and cost radius.
pub open spec fn hazard_cells(from: BlockPos, to: BlockPos, radius: int) -> Set<BlockPos> {
    cells::near_cells(to, 1).union(
        cells::given(
            radius > 0,
            cells::swept(
                transition_line(from, to),
                |at: BlockPos| cells::near_cells(at, radius),
            ),
        ),
    )
}

/// Every cell whose state may affect a traceable transition.
pub open spec fn dependencies(
    from: BlockPos,
    to: BlockPos,
    kind: MoveKind,
    options: DependencyOptions,
) -> Set<BlockPos> {
    corridor_cells(from, to, options.local_neighborhood_radius as int).union(
        kind_cells(from, to, kind),
    ).union(hazard_cells(from, to, options.hazard_radius as int))
}

/// Both endpoint bodies.
pub open spec fn endpoint_list(from: BlockPos, to: BlockPos) -> Seq<BlockPos> {
    cells::body_list(from) + cells::body_list(to)
}

/// Both orthogonal body columns of a diagonal.
pub open spec fn corner_list(from: BlockPos, to: BlockPos) -> Seq<BlockPos> {
    cells::body_list(BlockPos { x: to.x, y: from.y, z: from.z }) + cells::body_list(
        BlockPos { x: from.x, y: from.y, z: to.z },
    )
}

/// The cells of the prism between two positions that come before `(x, z, y)`,
/// column by column from the bottom up.
pub open spec fn prism_before(from: BlockPos, to: BlockPos, x: int, z: int, y: int) -> Seq<BlockPos>
    decreases
            x - arith::min_int(from.x as int, to.x as int),
            z - arith::min_int(from.z as int, to.z as int),
            y - prism_bottom(from, to),
{
    if y > prism_bottom(from, to) {
        prism_before(from, to, x, z, y - 1).push(
            BlockPos { x: x as i32, y: (y - 1) as i32, z: z as i32 },
        )
    } else if z > arith::min_int(from.z as int, to.z as int) {
        prism_before(from, to, x, z - 1, prism_top(from, to) + 1)
    } else if x > arith::min_int(from.x as int, to.x as int) {
        prism_before(
            from,
            to,
            x - 1,
            arith::max_int(from.z as int, to.z as int) + 1,
            prism_bottom(from, to),
        )
    } else {
        Seq::empty()
    }
}

pub open spec fn prism_bottom(from: BlockPos, to: BlockPos) -> int {
    arith::clamp_i32(arith::min_int(from.y as int, to.y as int) - 1) as int
}

pub open spec fn prism_top(from: BlockPos, to: BlockPos) -> int {
    arith::clamp_i32(arith::max_int(from.y as int, to.y as int) + 3) as int
}

/// The whole prism between two positions.
pub open spec fn prism_list(from: BlockPos, to: BlockPos) -> Seq<BlockPos> {
    prism_before(
        from,
        to,
        arith::max_int(from.x as int, to.x as int) + 1,
        arith::min_int(from.z as int, to.z as int),
        prism_bottom(from, to),
    )
}

/// The bodies of one place to run up from, from the bottom up.
pub open spec fn approach_list(from: BlockPos, bx: int, bz: int) -> Seq<BlockPos> {
    cells::listed_if(
        bx != 0 || bz != 0,
        cells::body_list(world::shift(from, bx, -1, bz)) + cells::body_list(
            world::shift(from, bx, 0, bz),
        ) + cells::body_list(world::shift(from, bx, 1, bz)),
    )
}

/// The places `back` blocks behind a jump.
pub open spec fn run_up_list(from: BlockPos, to: BlockPos, back: int) -> Seq<BlockPos> {
    let bx = -sign(to.x - from.x) * back;
    let bz = -sign(to.z - from.z) * back;
    approach_list(from, bx, bz) + approach_list(from, bx, 0) + approach_list(from, 0, bz)
}

/// The bodies of the landing column below height `y`, from the bottom up.
pub open spec fn descent_before(from: BlockPos, to: BlockPos, y: int) -> Seq<BlockPos>
    decreases y - arith::min_int(from.y as int, to.y as int),
{
    if y > arith::min_int(from.y as int, to.y as int) {
        descent_before(from, to, y - 1) + cells::body_list(column(to, (y - 1) as i32))
    } else {
        Seq::empty()
    }
}

/// The landing column of a fall.
pub open spec fn descent_list(from: BlockPos, to: BlockPos) -> Seq<BlockPos> {
    descent_before(from, to, arith::max_int(from.y as int, to.y as int) + 1)
}

/// A body and the four cardinal bodies beside it.
pub open spec fn attached_list(at: BlockPos) -> Seq<BlockPos> {
    cells::body_list(at) + cells::body_list(world::shift(at, 1, 0, 0)) + cells::body_list(
        world::shift(at, -1, 0, 0),
    ) + cells::body_list(world::shift(at, 0, 0, 1)) + cells::body_list(world::shift(at, 0, 0, -1))
}

/// Two blocks of clearance above a body.
pub open spec fn raised_list(at: BlockPos) -> Seq<BlockPos> {
    cells::body_list(world::shift(at, 0, 1, 0)) + cells::body_list(world::shift(at, 0, 2, 0))
}

/// The cells of one movement kind's geometry.
pub open spec fn kind_list(from: BlockPos, to: BlockPos, kind: MoveKind) -> Seq<BlockPos> {
    let line = transition_line(from, to);
    cells::listed_if(
        kind is Jump || kind is Parkour,
        cells::along(line, |at: BlockPos| raised_list(at)),
    ) + cells::listed_if(
        kind is Parkour,
        prism_list(from, to) + run_up_list(from, to, 1) + run_up_list(from, to, 2),
    ) + cells::listed_if(kind is Fall, descent_list(from, to)) + cells::listed_if(
        kind is Climb,
        cells::along(line, |at: BlockPos| attached_list(at)),
    ) + cells::listed_if(
        kind is Swim,
        cells::along(line, |at: BlockPos| cells::near_list(at, 1)),
    )
}

/// The cells of a traceable transition in the order in which they count against
/// a bound: endpoints, corridor, corners, the kind's own geometry, the landing,
/// and the hazard radius.
pub open spec fn dependency_list(
    from: BlockPos,
    to: BlockPos,
    kind: MoveKind,
    options: DependencyOptions,
) -> Seq<BlockPos> {
    let line = transition_line(from, to);
    let radius = options.local_neighborhood_radius as int;
    let hazard = options.hazard_radius as int;
    endpoint_list(from, to) + cells::along(
        line,
        |at: BlockPos| cells::body_list(at) + cells::near_list(at, radius),
    ) + cells::listed_if(from.x != to.x && from.z != to.z, corner_list(from, to)) + kind_list(
        from,
        to,
        kind,
    ) + cells::near_list(to, 1) + cells::listed_if(
        hazard > 0,
        cells::along(line, |at: BlockPos| cells::near_list(at, hazard)),
    )
}

/// Whether a set of cells can be retained under a bound.
pub open spec fn fits(cells: Set<BlockPos>, maximum: usize) -> bool {
    cells.finite() && cells.len() <= maximum
}

/// What is asked of a footprint for `wanted` cells under a bound: all of them,
/// or as many as the bound allows and the broad mark.
pub open spec fn bounded(
    footprint: DependencyFootprint,
    wanted: Set<BlockPos>,
    maximum: usize,
) -> bool {
    &&& footprint.wf()
    &&& footprint.covers().subset_of(wanted)
    &&& if fits(wanted, maximum) {
        footprint.covers() == wanted
    } else {
        footprint.listed().len() == maximum
    }
}

fn lerp_component(from: i32, to: i32, step: u32, steps: u32) -> (value: i32)
    requires
        step <= steps <= MAX_SAMPLED_TRANSITION_LENGTH,
        steps > 0,
        arith::abs_int(to - from) <= steps,
    ensures
        value == from + toward_zero((to - from) * step, steps as int),
{
    let distance: u32 = abs_diff_i32(to, from);
    proof {
        let d = distance as int;
        let k = step as int;
        let n = steps as int;
        assert(0 <= d * k <= 128 * 128) by (nonlinear_arith)
            requires
                0 <= d <= n <= 128,
                0 <= k <= n,
        ;
        assert(0 <= (d * k) / n <= d) by (nonlinear_arith)
            requires
                0 <= d,
                0 <= k <= n,
                n > 0,
        ;
        assert((-d) * k == -(d * k)) by (nonlinear_arith);
    }
    let moved: u32 = distance * step / steps;
    if to >= from {
        from + moved as i32
    } else {
        proof {
            if distance * step == 0 {
                assert(moved == 0);
            }
        }
        from - moved as i32
    }
}

fn transition_samples(from: BlockPos, to: BlockPos) -> (samples: Vec<BlockPos>)
    requires
        axis_span(from, to) <= MAX_SAMPLED_TRANSITION_LENGTH,
    ensures
        samples@ == transition_line(from, to),
{
    let steps: u32 = span_of(from, to);
    let mut samples: Vec<BlockPos> = Vec::new();
    if steps == 0 {
        samples.push(from);
        return samples;
    }
    let mut step: u32 = 0;
    while step <= steps
        invariant
            0 < steps == axis_span(from, to) <= MAX_SAMPLED_TRANSITION_LENGTH,
            step <= steps + 1,
            samples@ == transition_line(from, to).take(step as int),
        decreases steps + 1 - step,
    {
        let sample = BlockPos {
            x: lerp_component(from.x, to.x, step, steps),
            y: lerp_component(from.y, to.y, step, steps),
            z: lerp_component(from.z, to.z, step, steps),
        };
        let ghost line = transition_line(from, to);
        assert(line[step as int] == sample);
        samples.push(sample);
        step += 1;
        assert(line.take(step as int) =~= line.take(step - 1).push(line[step - 1]));
    }
    assert(transition_line(from, to).take(step as int) =~= transition_line(from, to));
    samples
}

fn span_of(from: BlockPos, to: BlockPos) -> (span: u32)
    ensures
        span == axis_span(from, to),
{
    let ax: u32 = abs_diff_i32(to.x, from.x);
    let ay: u32 = abs_diff_i32(to.y, from.y);
    let az: u32 = abs_diff_i32(to.z, from.z);
    let wide: u32 = arith::max_u32(ax, ay);
    arith::max_u32(wide, az)
}

fn known_builtin_geometry(from: BlockPos, to: BlockPos, kind: MoveKind) -> (known: bool)
    ensures
        known == known_geometry(from, to, kind),
{
    let ax: u32 = abs_diff_i32(to.x, from.x);
    let ay: u32 = abs_diff_i32(to.y, from.y);
    let az: u32 = abs_diff_i32(to.z, from.z);
    let dy: i64 = to.y as i64 - from.y as i64;
    let straight: bool = (ax > 0) != (az > 0);
    let diagonal: bool = ax > 0 && az > 0;
    let adjacent: bool = ax <= 1 && az <= 1;
    match kind {
        MoveKind::Start | MoveKind::Aotv | MoveKind::Etherwarp => false,
        MoveKind::Walk => adjacent && ((straight && ay <= 1) || (diagonal && dy == 0)),
        MoveKind::Jump => adjacent && straight && dy == 1,
        MoveKind::Fall => adjacent && straight && dy < 0,
        MoveKind::Parkour { blocks, rise } => {
            if ax > 4 || az > 4 {
                proof {
                    let x = ax as int;
                    let z = az as int;
                    assert(x * x + z * z > 16) by (nonlinear_arith)
                        requires
                            x >= 0,
                            z >= 0,
                            x > 4 || z > 4,
                    ;
                }
                return false;
            }
            proof {
                let x = ax as int;
                let z = az as int;
                assert(0 <= x * x <= 16 && 0 <= z * z <= 16) by (nonlinear_arith)
                    requires
                        0 <= x <= 4,
                        0 <= z <= 4,
                ;
            }
            let squared: u32 = ax * ax + az * az;
            let travelled: u8 = if squared <= 6 {
                2
            } else if squared <= 12 {
                3
            } else {
                4
            };
            4 <= squared && squared <= 16 && rise as i64 == dy && blocks == travelled
        },
        MoveKind::Climb => adjacent && ((ax == 0 && az == 0 && ay == 1) || (straight && (dy == 0
            || dy == 1))),
        MoveKind::Swim => adjacent && ay <= 1 && !diagonal && (ax > 0 || ay > 0 || az > 0),
    }
}

fn include_corridor(builder: &mut FootprintBuilder, samples: &Vec<BlockPos>, radius: i32)
    requires
        old(builder).wf(),
        0 <= radius <= 2,
    ensures
        old(builder).absorbs(
            *final(builder),
            cells::swept(
                samples@,
                |at: BlockPos| cells::body_cells(at).union(cells::near_cells(at, radius as int)),
            ),
        ),
        old(builder).lists(
            *final(builder),
            cells::along(
                samples@,
                |at: BlockPos| cells::body_list(at) + cells::near_list(at, radius as int),
            ),
        ),
{
    let ghost start = *builder;
    let ghost part = |at: BlockPos|
        cells::body_cells(at).union(cells::near_cells(at, radius as int));
    let ghost list = |at: BlockPos| cells::body_list(at) + cells::near_list(at, radius as int);
    proof {
        cells::lemma_absorb_nothing(start);
        cells::lemma_swept_nothing(part, samples@);
    }
    let mut i: usize = 0;
    while i < samples.len()
        invariant
            i <= samples@.len(),
            0 <= radius <= 2,
            part == (|at: BlockPos|
                cells::body_cells(at).union(cells::near_cells(at, radius as int))),
            start.absorbs(*builder, cells::swept(samples@.take(i as int), part)),
            list == (|at: BlockPos| cells::body_list(at) + cells::near_list(at, radius as int)),
            start.lists(*builder, cells::along(samples@.take(i as int), list)),
        decreases samples@.len() - i,
    {
        let sample = samples[i];
        let ghost before = *builder;
        builder.body(sample);
        let ghost between = *builder;
        builder.neighborhood(sample, radius);
        proof {
            cells::lemma_absorb_both(
                before,
                between,
                *builder,
                cells::body_cells(sample),
                cells::near_cells(sample, radius as int),
            );
            cells::lemma_list_both(
                before,
                between,
                *builder,
                cells::body_list(sample),
                cells::near_list(sample, radius as int),
            );
            cells::lemma_absorb_both(
                start,
                before,
                *builder,
                cells::swept(samples@.take(i as int), part),
                part(sample),
            );
            cells::lemma_swept_step(samples@, part, i as int);
            cells::lemma_list_both(
                start,
                before,
                *builder,
                cells::along(samples@.take(i as int), list),
                list(sample),
            );
            cells::lemma_along_step(samples@, list, i as int);
        }
        i += 1;
    }
    assert(samples@.take(i as int) =~= samples@);
}

fn include_surroundings(builder: &mut FootprintBuilder, samples: &Vec<BlockPos>, radius: i32)
    requires
        old(builder).wf(),
        0 <= radius <= 32,
    ensures
        old(builder).absorbs(
            *final(builder),
            cells::swept(samples@, |at: BlockPos| cells::near_cells(at, radius as int)),
        ),
        old(builder).lists(
            *final(builder),
            cells::along(samples@, |at: BlockPos| cells::near_list(at, radius as int)),
        ),
{
    let ghost start = *builder;
    let ghost part = |at: BlockPos| cells::near_cells(at, radius as int);
    let ghost list = |at: BlockPos| cells::near_list(at, radius as int);
    proof {
        cells::lemma_absorb_nothing(start);
        cells::lemma_swept_nothing(part, samples@);
    }
    let mut i: usize = 0;
    while i < samples.len()
        invariant
            i <= samples@.len(),
            0 <= radius <= 32,
            part == (|at: BlockPos| cells::near_cells(at, radius as int)),
            start.absorbs(*builder, cells::swept(samples@.take(i as int), part)),
            list == (|at: BlockPos| cells::near_list(at, radius as int)),
            start.lists(*builder, cells::along(samples@.take(i as int), list)),
        decreases samples@.len() - i,
    {
        let sample = samples[i];
        let ghost before = *builder;
        builder.neighborhood(sample, radius);
        proof {
            cells::lemma_absorb_both(
                start,
                before,
                *builder,
                cells::swept(samples@.take(i as int), part),
                part(sample),
            );
            cells::lemma_swept_step(samples@, part, i as int);
            cells::lemma_list_both(
                start,
                before,
                *builder,
                cells::along(samples@.take(i as int), list),
                list(sample),
            );
            cells::lemma_along_step(samples@, list, i as int);
        }
        i += 1;
    }
    assert(samples@.take(i as int) =~= samples@);
}

fn include_headroom(builder: &mut FootprintBuilder, samples: &Vec<BlockPos>)
    requires
        old(builder).wf(),
    ensures
        old(builder).absorbs(
            *final(builder),
            cells::swept(samples@, |at: BlockPos| raised_cells(at)),
        ),
        old(builder).lists(
            *final(builder),
            cells::along(samples@, |at: BlockPos| raised_list(at)),
        ),
{
    let ghost start = *builder;
    let ghost part = |at: BlockPos| raised_cells(at);
    let ghost list = |at: BlockPos| raised_list(at);
    proof {
        cells::lemma_absorb_nothing(start);
        cells::lemma_swept_nothing(part, samples@);
    }
    let mut i: usize = 0;
    while i < samples.len()
        invariant
            i <= samples@.len(),
            part == (|at: BlockPos| raised_cells(at)),
            start.absorbs(*builder, cells::swept(samples@.take(i as int), part)),
            list == (|at: BlockPos| raised_list(at)),
            start.lists(*builder, cells::along(samples@.take(i as int), list)),
        decreases samples@.len() - i,
    {
        let sample = samples[i];
        let ghost before = *builder;
        builder.body(offset(sample, 0, 1, 0));
        let ghost between = *builder;
        builder.body(offset(sample, 0, 2, 0));
        proof {
            cells::lemma_absorb_both(
                before,
                between,
                *builder,
                cells::body_cells(world::shift(sample, 0, 1, 0)),
                cells::body_cells(world::shift(sample, 0, 2, 0)),
            );
            cells::lemma_list_both(
                before,
                between,
                *builder,
                cells::body_list(world::shift(sample, 0, 1, 0)),
                cells::body_list(world::shift(sample, 0, 2, 0)),
            );
            cells::lemma_absorb_both(
                start,
                before,
                *builder,
                cells::swept(samples@.take(i as int), part),
                part(sample),
            );
            cells::lemma_swept_step(samples@, part, i as int);
            cells::lemma_list_both(
                start,
                before,
                *builder,
                cells::along(samples@.take(i as int), list),
                list(sample),
            );
            cells::lemma_along_step(samples@, list, i as int);
        }
        i += 1;
    }
    assert(samples@.take(i as int) =~= samples@);
}

fn include_attachments(builder: &mut FootprintBuilder, samples: &Vec<BlockPos>)
    requires
        old(builder).wf(),
    ensures
        old(builder).absorbs(
            *final(builder),
            cells::swept(samples@, |at: BlockPos| attached_cells(at)),
        ),
        old(builder).lists(
            *final(builder),
            cells::along(samples@, |at: BlockPos| attached_list(at)),
        ),
{
    let ghost start = *builder;
    let ghost part = |at: BlockPos| attached_cells(at);
    let ghost list = |at: BlockPos| attached_list(at);
    proof {
        cells::lemma_absorb_nothing(start);
        cells::lemma_swept_nothing(part, samples@);
    }
    let mut i: usize = 0;
    while i < samples.len()
        invariant
            i <= samples@.len(),
            part == (|at: BlockPos| attached_cells(at)),
            start.absorbs(*builder, cells::swept(samples@.take(i as int), part)),
            list == (|at: BlockPos| attached_list(at)),
            start.lists(*builder, cells::along(samples@.take(i as int), list)),
        decreases samples@.len() - i,
    {
        let sample = samples[i];
        let ghost before = *builder;
        include_attached(builder, sample);
        proof {
            cells::lemma_absorb_both(
                start,
                before,
                *builder,
                cells::swept(samples@.take(i as int), part),
                part(sample),
            );
            cells::lemma_swept_step(samples@, part, i as int);
            cells::lemma_list_both(
                start,
                before,
                *builder,
                cells::along(samples@.take(i as int), list),
                list(sample),
            );
            cells::lemma_along_step(samples@, list, i as int);
        }
        i += 1;
    }
    assert(samples@.take(i as int) =~= samples@);
}

fn include_attached(builder: &mut FootprintBuilder, at: BlockPos)
    requires
        old(builder).wf(),
    ensures
        old(builder).absorbs(*final(builder), attached_cells(at)),
        old(builder).lists(*final(builder), attached_list(at)),
{
    let ghost s0 = *builder;
    builder.body(at);
    let ghost s1 = *builder;
    builder.body(offset(at, 1, 0, 0));
    let ghost s2 = *builder;
    builder.body(offset(at, -1, 0, 0));
    let ghost s3 = *builder;
    builder.body(offset(at, 0, 0, 1));
    let ghost s4 = *builder;
    builder.body(offset(at, 0, 0, -1));
    proof {
        let a = cells::body_cells(at);
        let b = cells::body_cells(world::shift(at, 1, 0, 0));
        let c = cells::body_cells(world::shift(at, -1, 0, 0));
        let d = cells::body_cells(world::shift(at, 0, 0, 1));
        let e = cells::body_cells(world::shift(at, 0, 0, -1));
        cells::lemma_absorb_both(s0, s1, s2, a, b);
        cells::lemma_absorb_both(s0, s2, s3, a.union(b), c);
        cells::lemma_absorb_both(s0, s3, s4, a.union(b).union(c), d);
        cells::lemma_absorb_both(s0, s4, *builder, a.union(b).union(c).union(d), e);
        let p = cells::body_list(at);
        let q = cells::body_list(world::shift(at, 1, 0, 0));
        let r = cells::body_list(world::shift(at, -1, 0, 0));
        let t = cells::body_list(world::shift(at, 0, 0, 1));
        let u = cells::body_list(world::shift(at, 0, 0, -1));
        cells::lemma_list_both(s0, s1, s2, p, q);
        cells::lemma_list_both(s0, s2, s3, p + q, r);
        cells::lemma_list_both(s0, s3, s4, p + q + r, t);
        cells::lemma_list_both(s0, s4, *builder, p + q + r + t, u);
    }
}

fn include_corners(builder: &mut FootprintBuilder, from: BlockPos, to: BlockPos)
    requires
        old(builder).wf(),
    ensures
        old(builder).absorbs(*final(builder), corner_cells(from, to)),
        old(builder).lists(*final(builder), corner_list(from, to)),
{
    let ghost start = *builder;
    let first = BlockPos { x: to.x, y: from.y, z: from.z };
    let second = BlockPos { x: from.x, y: from.y, z: to.z };
    builder.body(first);
    let ghost between = *builder;
    builder.body(second);
    proof {
        cells::lemma_absorb_both(
            start,
            between,
            *builder,
            cells::body_cells(first),
            cells::body_cells(second),
        );
        cells::lemma_list_both(
            start,
            between,
            *builder,
            cells::body_list(first),
            cells::body_list(second),
        );
    }
}

/// What the prism loop has covered before it reaches `(x, z, y)`.
spec fn prism_part(from: BlockPos, to: BlockPos, x: int, z: int, y: int) -> Set<BlockPos> {
    prism_cells(from, to).intersect(
        Set::new(
            |cell: BlockPos|
                cell.x < x || (cell.x == x && (cell.z < z || (cell.z == z && cell.y < y))),
        ),
    )
}

fn include_prism(builder: &mut FootprintBuilder, from: BlockPos, to: BlockPos)
    requires
        old(builder).wf(),
    ensures
        old(builder).absorbs(*final(builder), prism_cells(from, to)),
        old(builder).lists(*final(builder), prism_list(from, to)),
{
    let (low_x, high_x): (i32, i32) = ordered(from.x, to.x);
    let (low_z, high_z): (i32, i32) = ordered(from.z, to.z);
    let (bottom, top): (i32, i32) = ordered(from.y, to.y);
    let low_y: i32 = saturating_sub_i32(bottom, 1);
    let high_y: i32 = saturating_add_i32(top, 3);
    let ghost start = *builder;
    let mut x: i64 = low_x as i64;
    proof {
        cells::lemma_absorb_nothing(start);
        assert(prism_part(from, to, x as int, low_z as int, low_y as int) =~= Set::empty());
    }
    while x <= high_x as i64
        invariant
            low_x <= x <= high_x + 1,
            low_x == arith::min_int(from.x as int, to.x as int),
            high_x == arith::max_int(from.x as int, to.x as int),
            low_z == arith::min_int(from.z as int, to.z as int),
            high_z == arith::max_int(from.z as int, to.z as int),
            low_y == arith::clamp_i32(arith::min_int(from.y as int, to.y as int) - 1),
            high_y == arith::clamp_i32(arith::max_int(from.y as int, to.y as int) + 3),
            start.absorbs(
                *builder,
                prism_part(from, to, x as int, low_z as int, low_y as int),
            ),
            start.lists(
                *builder,
                prism_before(from, to, x as int, low_z as int, low_y as int),
            ),
        decreases high_x + 1 - x,
    {
        let mut z: i64 = low_z as i64;
        while z <= high_z as i64
            invariant
                low_x <= x <= high_x,
                low_z <= z <= high_z + 1,
                low_x == arith::min_int(from.x as int, to.x as int),
                high_x == arith::max_int(from.x as int, to.x as int),
                low_z == arith::min_int(from.z as int, to.z as int),
                high_z == arith::max_int(from.z as int, to.z as int),
                low_y == arith::clamp_i32(arith::min_int(from.y as int, to.y as int) - 1),
                high_y == arith::clamp_i32(arith::max_int(from.y as int, to.y as int) + 3),
                start.absorbs(*builder, prism_part(from, to, x as int, z as int, low_y as int)),
                start.lists(*builder, prism_before(from, to, x as int, z as int, low_y as int)),
            decreases high_z + 1 - z,
        {
            let mut y: i64 = low_y as i64;
            while y <= high_y as i64
                invariant
                    low_x <= x <= high_x,
                    low_z <= z <= high_z,
                    low_y <= y <= high_y + 1,
                    low_x == arith::min_int(from.x as int, to.x as int),
                    high_x == arith::max_int(from.x as int, to.x as int),
                    low_z == arith::min_int(from.z as int, to.z as int),
                    high_z == arith::max_int(from.z as int, to.z as int),
                    low_y == arith::clamp_i32(arith::min_int(from.y as int, to.y as int) - 1),
                    high_y == arith::clamp_i32(arith::max_int(from.y as int, to.y as int) + 3),
                    start.absorbs(*builder, prism_part(from, to, x as int, z as int, y as int)),
                    start.lists(*builder, prism_before(from, to, x as int, z as int, y as int)),
                decreases high_y + 1 - y,
            {
                let cell = BlockPos { x: x as i32, y: y as i32, z: z as i32 };
                let ghost before = *builder;
                builder.include_cell(cell);
                proof {
                    let part = prism_part(from, to, x as int, z as int, y as int);
                    cells::lemma_absorb_both(start, before, *builder, part, set![cell]);
                    let list = prism_before(from, to, x as int, z as int, y as int);
                    cells::lemma_list_both(start, before, *builder, list, seq![cell]);
                    assert(list + seq![cell] =~= list.push(cell));
                    assert(prism_part(from, to, x as int, z as int, y + 1) =~= part.union(
                        set![cell],
                    ));
                }
                y += 1;
            }
            assert(prism_part(from, to, x as int, z as int, y as int) =~= prism_part(
                from,
                to,
                x as int,
                z + 1,
                low_y as int,
            ));
            z += 1;
        }
        assert(prism_part(from, to, x as int, z as int, low_y as int) =~= prism_part(
            from,
            to,
            x + 1,
            low_z as int,
            low_y as int,
        ));
        x += 1;
    }
    assert(prism_part(from, to, x as int, low_z as int, low_y as int) =~= prism_cells(from, to));
}

fn ordered(a: i32, b: i32) -> (pair: (i32, i32))
    ensures
        pair.0 == arith::min_int(a as int, b as int),
        pair.1 == arith::max_int(a as int, b as int),
{
    if a <= b {
        (a, b)
    } else {
        (b, a)
    }
}

fn include_approach(builder: &mut FootprintBuilder, from: BlockPos, bx: i32, bz: i32)
    requires
        old(builder).wf(),
    ensures
        old(builder).absorbs(*final(builder), approach_cells(from, bx as int, bz as int)),
        old(builder).lists(*final(builder), approach_list(from, bx as int, bz as int)),
{
    let ghost s0 = *builder;
    if bx == 0 && bz == 0 {
        proof {
            cells::lemma_absorb_nothing(s0);
        }
        return;
    }
    builder.body(offset(from, bx, -1, bz));
    let ghost s1 = *builder;
    builder.body(offset(from, bx, 0, bz));
    let ghost s2 = *builder;
    builder.body(offset(from, bx, 1, bz));
    proof {
        let a = cells::body_cells(world::shift(from, bx as int, -1, bz as int));
        let b = cells::body_cells(world::shift(from, bx as int, 0, bz as int));
        let c = cells::body_cells(world::shift(from, bx as int, 1, bz as int));
        cells::lemma_absorb_both(s0, s1, s2, a, b);
        cells::lemma_absorb_both(s0, s2, *builder, a.union(b), c);
        let p = cells::body_list(world::shift(from, bx as int, -1, bz as int));
        let q = cells::body_list(world::shift(from, bx as int, 0, bz as int));
        let r = cells::body_list(world::shift(from, bx as int, 1, bz as int));
        cells::lemma_list_both(s0, s1, s2, p, q);
        cells::lemma_list_both(s0, s2, *builder, p + q, r);
    }
}

fn heading(from: i32, to: i32) -> (s: i32)
    ensures
        s == sign(to - from),
{
    if to > from {
        1
    } else if to < from {
        -1
    } else {
        0
    }
}

fn include_run_up(builder: &mut FootprintBuilder, from: BlockPos, to: BlockPos, back: i32)
    requires
        old(builder).wf(),
        back == 1 || back == 2,
    ensures
        old(builder).absorbs(*final(builder), run_up_cells(from, to, back as int)),
        old(builder).lists(*final(builder), run_up_list(from, to, back as int)),
{
    let bx: i32 = -heading(from.x, to.x) * back;
    let bz: i32 = -heading(from.z, to.z) * back;
    let ghost s0 = *builder;
    include_approach(builder, from, bx, bz);
    let ghost s1 = *builder;
    include_approach(builder, from, bx, 0);
    let ghost s2 = *builder;
    include_approach(builder, from, 0, bz);
    proof {
        let a = approach_cells(from, bx as int, bz as int);
        let b = approach_cells(from, bx as int, 0);
        let c = approach_cells(from, 0, bz as int);
        cells::lemma_absorb_both(s0, s1, s2, a, b);
        cells::lemma_absorb_both(s0, s2, *builder, a.union(b), c);
        let p = approach_list(from, bx as int, bz as int);
        let q = approach_list(from, bx as int, 0);
        let r = approach_list(from, 0, bz as int);
        cells::lemma_list_both(s0, s1, s2, p, q);
        cells::lemma_list_both(s0, s2, *builder, p + q, r);
    }
}

/// What the descent loop has covered before it reaches height `y`.
spec fn descent_part(from: BlockPos, to: BlockPos, y: int) -> Set<BlockPos> {
    Set::new(
        |cell: BlockPos|
            exists|h: i32|
                arith::min_int(from.y as int, to.y as int) <= h < y && cells::body_cells(
                    #[trigger] column(to, h),
                ).contains(cell),
    )
}

fn include_descent(builder: &mut FootprintBuilder, from: BlockPos, to: BlockPos)
    requires
        old(builder).wf(),
    ensures
        old(builder).absorbs(*final(builder), descent_cells(from, to)),
        old(builder).lists(*final(builder), descent_list(from, to)),
{
    let (low, high): (i32, i32) = ordered(from.y, to.y);
    let ghost start = *builder;
    let mut y: i64 = low as i64;
    proof {
        cells::lemma_absorb_nothing(start);
        assert(descent_part(from, to, y as int) =~= Set::empty());
    }
    while y <= high as i64
        invariant
            low <= y <= high + 1,
            low == arith::min_int(from.y as int, to.y as int),
            high == arith::max_int(from.y as int, to.y as int),
            start.absorbs(*builder, descent_part(from, to, y as int)),
            start.lists(*builder, descent_before(from, to, y as int)),
        decreases high + 1 - y,
    {
        let ghost before = *builder;
        let at = BlockPos { x: to.x, y: y as i32, z: to.z };
        builder.body(at);
        proof {
            let part = descent_part(from, to, y as int);
            assert(at == column(to, y as i32));
            cells::lemma_absorb_both(start, before, *builder, part, cells::body_cells(at));
            cells::lemma_list_both(
                start,
                before,
                *builder,
                descent_before(from, to, y as int),
                cells::body_list(at),
            );
            assert forall|cell: BlockPos| descent_part(from, to, y + 1).contains(cell)
                <==> part.union(cells::body_cells(at)).contains(cell) by {
                if descent_part(from, to, y + 1).contains(cell) {
                    let h = choose|h: i32|
                        arith::min_int(from.y as int, to.y as int) <= h < y + 1
                            && cells::body_cells(#[trigger] column(to, h)).contains(cell);
                    assert(h < y || column(to, h) == at);
                }
                if cells::body_cells(at).contains(cell) {
                    assert(cells::body_cells(column(to, y as i32)).contains(cell));
                }
            }
            assert(descent_part(from, to, y + 1) =~= part.union(cells::body_cells(at)));
        }
        y += 1;
    }
    assert(descent_part(from, to, y as int) =~= descent_cells(from, to));
}

fn include_kind(
    builder: &mut FootprintBuilder,
    from: BlockPos,
    to: BlockPos,
    kind: MoveKind,
    samples: &Vec<BlockPos>,
)
    requires
        old(builder).wf(),
        samples@ == transition_line(from, to),
    ensures
        old(builder).absorbs(*final(builder), kind_cells(from, to, kind)),
        old(builder).lists(*final(builder), kind_list(from, to, kind)),
{
    let (airborne, running): (bool, bool) = match kind {
        MoveKind::Jump => (true, false),
        MoveKind::Parkour { .. } => (true, true),
        _ => (false, false),
    };
    let ghost line = transition_line(from, to);
    let ghost s0 = *builder;
    proof {
        cells::lemma_absorb_nothing(s0);
    }
    if airborne {
        include_headroom(builder, samples);
    }
    let ghost s1 = *builder;
    proof {
        cells::lemma_absorb_nothing(s1);
    }
    if running {
        include_prism(builder, from, to);
        let ghost p1 = *builder;
        include_run_up(builder, from, to, 1);
        let ghost p2 = *builder;
        include_run_up(builder, from, to, 2);
        proof {
            let a = prism_cells(from, to);
            let b = run_up_cells(from, to, 1);
            let c = run_up_cells(from, to, 2);
            cells::lemma_absorb_both(s1, p1, p2, a, b);
            cells::lemma_absorb_both(s1, p2, *builder, a.union(b), c);
            let p = prism_list(from, to);
            let q = run_up_list(from, to, 1);
            let r = run_up_list(from, to, 2);
            cells::lemma_list_both(s1, p1, p2, p, q);
            cells::lemma_list_both(s1, p2, *builder, p + q, r);
        }
    }
    let ghost s2 = *builder;
    proof {
        cells::lemma_absorb_nothing(s2);
    }
    if kind == MoveKind::Fall {
        include_descent(builder, from, to);
    }
    let ghost s3 = *builder;
    proof {
        cells::lemma_absorb_nothing(s3);
    }
    if kind == MoveKind::Climb {
        include_attachments(builder, samples);
    }
    let ghost s4 = *builder;
    proof {
        cells::lemma_absorb_nothing(s4);
    }
    if kind == MoveKind::Swim {
        include_surroundings(builder, samples, 1);
    }
    proof {
        let a = cells::given(
            kind is Jump || kind is Parkour,
            cells::swept(line, |at: BlockPos| raised_cells(at)),
        );
        let b = cells::given(
            kind is Parkour,
            prism_cells(from, to).union(run_up_cells(from, to, 1)).union(run_up_cells(from, to, 2)),
        );
        let c = cells::given(kind is Fall, descent_cells(from, to));
        let d = cells::given(kind is Climb, cells::swept(line, |at: BlockPos| attached_cells(at)));
        let e = cells::given(
            kind is Swim,
            cells::swept(line, |at: BlockPos| cells::near_cells(at, 1)),
        );
        cells::lemma_absorb_both(s0, s1, s2, a, b);
        cells::lemma_absorb_both(s0, s2, s3, a.union(b), c);
        cells::lemma_absorb_both(s0, s3, s4, a.union(b).union(c), d);
        cells::lemma_absorb_both(s0, s4, *builder, a.union(b).union(c).union(d), e);
        let p = cells::listed_if(
            kind is Jump || kind is Parkour,
            cells::along(line, |at: BlockPos| raised_list(at)),
        );
        let q = cells::listed_if(
            kind is Parkour,
            prism_list(from, to) + run_up_list(from, to, 1) + run_up_list(from, to, 2),
        );
        let r = cells::listed_if(kind is Fall, descent_list(from, to));
        let t = cells::listed_if(
            kind is Climb,
            cells::along(line, |at: BlockPos| attached_list(at)),
        );
        let u = cells::listed_if(
            kind is Swim,
            cells::along(line, |at: BlockPos| cells::near_list(at, 1)),
        );
        cells::lemma_list_both(s0, s1, s2, p, q);
        cells::lemma_list_both(s0, s2, s3, p + q, r);
        cells::lemma_list_both(s0, s3, s4, p + q + r, t);
        cells::lemma_list_both(s0, s4, *builder, p + q + r + t, u);
    }
}

/// The footprint of what a builder collected.
fn finish(builder: FootprintBuilder, edge_index: usize, from: BlockPos, to: BlockPos) -> (footprint:
    DependencyFootprint)
    requires
        builder.found@.no_duplicates(),
    ensures
        footprint.wf(),
        footprint.edge_index == edge_index,
        footprint.from == from,
        footprint.to == to,
        footprint.covers() == builder.cells(),
        footprint.listed().len() == builder.found@.len(),
        footprint.is_broad() == builder.broad,
{
    let blocks = sort_positions(&builder.found);
    DependencyFootprint {
        edge_index,
        from,
        to,
        blocks,
        invalidate_on_any_change: builder.broad,
    }
}

/// A builder that was offered `wanted` from the start holds all of it, or as
/// many cells as its limit and the broad mark.
proof fn lemma_absorbed_is_bounded(
    start: FootprintBuilder,
    end: FootprintBuilder,
    wanted: Set<BlockPos>,
)
    requires
        start.cells() == Set::<BlockPos>::empty(),
        !start.broad,
        start.absorbs(end, wanted),
    ensures
        end.cells().subset_of(wanted),
        end.broad <==> !fits(wanted, end.maximum),
        if fits(wanted, end.maximum) {
            end.cells() == wanted
        } else {
            end.found@.len() == end.maximum
        },
{
    end.found@.unique_seq_to_set();
    assert(start.cells().union(wanted) =~= wanted);
    if end.broad && fits(wanted, end.maximum) {
        vstd::set_lib::lemma_len_subset(end.cells(), wanted);
        vstd::set_lib::lemma_subset_equality(end.cells(), wanted);
        assert(false);
    }
}

impl DependencyFootprint {
    /// Creates a bounded exact footprint supplied by a motion generator.
    ///
    /// More than [`MAX_DEPENDENCIES_PER_EDGE`] unique blocks degrades to a
    /// broad footprint rather than allocating without a bound.
    pub fn from_generator_blocks(
        edge_index: usize,
        from: BlockPos,
        to: BlockPos,
        blocks: &[BlockPos],
    ) -> (footprint: DependencyFootprint)
        ensures
            footprint.edge_index == edge_index,
            footprint.from == from,
            footprint.to == to,
            bounded(footprint, blocks@.to_set(), MAX_DEPENDENCIES_PER_EDGE),
            footprint.covers() == cells::retained(blocks@, MAX_DEPENDENCIES_PER_EDGE),
            footprint.is_broad() <==> blocks@.len() == 0 || blocks@.to_set().len()
                > MAX_DEPENDENCIES_PER_EDGE,
    {
        let mut builder = FootprintBuilder::new(MAX_DEPENDENCIES_PER_EDGE);
        let ghost start = builder;
        proof {
            cells::lemma_absorb_nothing(start);
            assert(blocks@.take(0).to_set() =~= Set::empty());
            assert(blocks@.take(0) =~= Seq::<BlockPos>::empty());
        }
        let mut i: usize = 0;
        while i < blocks.len()
            invariant
                i <= blocks@.len(),
                start.absorbs(builder, blocks@.take(i as int).to_set()),
                start.lists(builder, blocks@.take(i as int)),
            decreases blocks@.len() - i,
        {
            let ghost before = builder;
            builder.include_cell(blocks[i]);
            proof {
                let part = blocks@.take(i as int).to_set();
                cells::lemma_absorb_both(start, before, builder, part, set![blocks@[i as int]]);
                let longer = blocks@.take(i + 1);
                assert(longer =~= blocks@.take(i as int).push(blocks@[i as int]));
                let alone = seq![blocks@[i as int]];
                cells::lemma_list_both(start, before, builder, blocks@.take(i as int), alone);
                assert(longer =~= blocks@.take(i as int) + alone);
                assert forall|at: BlockPos| longer.to_set().contains(at) <==> part.union(
                    set![blocks@[i as int]],
                ).contains(at) by {
                    if blocks@.take(i as int).contains(at) {
                        let k = choose|k: int| 0 <= k < i && blocks@.take(i as int)[k] == at;
                        assert(longer[k] == at);
                    }
                    assert(longer[i as int] == blocks@[i as int]);
                }
                assert(longer.to_set() =~= part.union(set![blocks@[i as int]]));
            }
            i += 1;
        }
        proof {
            assert(blocks@.take(i as int) =~= blocks@);
            lemma_absorbed_is_bounded(start, builder, blocks@.to_set());
            vstd::seq_lib::seq_to_set_is_finite(blocks@);
        }
        if builder.found.len() == 0 {
            builder.broad = true;
            proof {
                if blocks@.len() > 0 {
                    assert(blocks@.to_set().contains(blocks@[0]));
                    assert(builder.cells().contains(blocks@[0]));
                }
            }
        } else {
            proof {
                assert(builder.cells().contains(builder.found@[0]));
                assert(blocks@.contains(builder.found@[0]));
            }
        }
        finish(builder, edge_index, from, to)
    }
}

/// A builder that was offered the parts of a transition in turn was offered the
/// whole list.
proof fn lemma_listed_in_turn(
    states: Seq<FootprintBuilder>,
    from: BlockPos,
    to: BlockPos,
    kind: MoveKind,
    options: DependencyOptions,
)
    requires
        states.len() == 7,
        states[0].lists(states[1], endpoint_list(from, to)),
        states[1].lists(
            states[2],
            cells::along(
                transition_line(from, to),
                |at: BlockPos|
                    cells::body_list(at) + cells::near_list(
                        at,
                        options.local_neighborhood_radius as int,
                    ),
            ),
        ),
        states[2].lists(
            states[3],
            cells::listed_if(from.x != to.x && from.z != to.z, corner_list(from, to)),
        ),
        states[3].lists(states[4], kind_list(from, to, kind)),
        states[4].lists(states[5], cells::near_list(to, 1)),
        states[5].lists(
            states[6],
            cells::listed_if(
                options.hazard_radius > 0,
                cells::along(
                    transition_line(from, to),
                    |at: BlockPos| cells::near_list(at, options.hazard_radius as int),
                ),
            ),
        ),
    ensures
        states[0].lists(states[6], dependency_list(from, to, kind, options)),
{
    let line = transition_line(from, to);
    let radius = options.local_neighborhood_radius as int;
    let hazard = options.hazard_radius as int;
    let a = endpoint_list(from, to);
    let b = cells::along(
        line,
        |at: BlockPos| cells::body_list(at) + cells::near_list(at, radius),
    );
    let c = cells::listed_if(from.x != to.x && from.z != to.z, corner_list(from, to));
    let d = kind_list(from, to, kind);
    let e = cells::near_list(to, 1);
    let f = cells::listed_if(
        hazard > 0,
        cells::along(line, |at: BlockPos| cells::near_list(at, hazard)),
    );
    cells::lemma_list_both(states[0], states[1], states[2], a, b);
    cells::lemma_list_both(states[0], states[2], states[3], a + b, c);
    cells::lemma_list_both(states[0], states[3], states[4], a + b + c, d);
    cells::lemma_list_both(states[0], states[4], states[5], a + b + c + d, e);
    cells::lemma_list_both(states[0], states[5], states[6], a + b + c + d + e, f);
}

/// Computes a bounded conservative footprint for one path transition.
///
/// The footprint contains both endpoint bodies and supports, diagonal corner
/// clearance, jump/parkour headroom, the landing neighborhood, climb
/// attachments, the swim/collision neighborhood, and the configured lava
/// safety/cost radius. A caller may therefore invalidate a route without
/// inspecting the new block kind first. A transition that cannot be traced
/// keeps its endpoint bodies for diagnostics and responds to every update, as
/// does one whose cells exceed the bound, which keeps the first of them.
pub fn transition_dependency_footprint(
    edge_index: usize,
    from: BlockPos,
    to: BlockPos,
    kind: MoveKind,
    options: DependencyOptions,
) -> (footprint: DependencyFootprint)
    ensures
        footprint.edge_index == edge_index,
        footprint.from == from,
        footprint.to == to,
        bounded(
            footprint,
            if traceable(from, to, kind) {
                dependencies(from, to, kind, options.in_range())
            } else {
                endpoint_cells(from, to)
            },
            options.in_range().max_blocks_per_edge,
        ),
        footprint.covers() == cells::retained(
            if traceable(from, to, kind) {
                dependency_list(from, to, kind, options.in_range())
            } else {
                endpoint_list(from, to)
            },
            options.in_range().max_blocks_per_edge,
        ),
        footprint.is_broad() <==> !traceable(from, to, kind) || !fits(
            dependencies(from, to, kind, options.in_range()),
            options.in_range().max_blocks_per_edge,
        ),
{
    let options = options.sanitized();
    let mut builder = FootprintBuilder::new(options.max_blocks_per_edge);
    let ghost s0 = builder;
    builder.body(from);
    let ghost first = builder;
    builder.body(to);
    let ghost s1 = builder;
    proof {
        cells::lemma_absorb_both(s0, first, s1, cells::body_cells(from), cells::body_cells(to));
        cells::lemma_list_both(s0, first, s1, cells::body_list(from), cells::body_list(to));
    }
    if !known_builtin_geometry(from, to, kind) || span_of(from, to)
        > MAX_SAMPLED_TRANSITION_LENGTH {
        proof {
            lemma_absorbed_is_bounded(s0, s1, endpoint_cells(from, to));
        }
        builder.broad = true;
        return finish(builder, edge_index, from, to);
    }
    let samples = transition_samples(from, to);
    include_corridor(&mut builder, &samples, options.local_neighborhood_radius);
    let ghost s2 = builder;
    proof {
        cells::lemma_absorb_nothing(s2);
    }
    if from.x != to.x && from.z != to.z {
        include_corners(&mut builder, from, to);
    }
    let ghost s3 = builder;
    include_kind(&mut builder, from, to, kind, &samples);
    let ghost s4 = builder;
    builder.neighborhood(to, 1);
    let ghost s5 = builder;
    proof {
        cells::lemma_absorb_nothing(s5);
    }
    if options.hazard_radius > 0 {
        include_surroundings(&mut builder, &samples, options.hazard_radius);
    }
    proof {
        lemma_listed_in_turn(
            seq![s0, s1, s2, s3, s4, s5, builder],
            from,
            to,
            kind,
            options,
        );
    }
    proof {
        let line = transition_line(from, to);
        let radius = options.local_neighborhood_radius as int;
        let hazard = options.hazard_radius as int;
        let ends = endpoint_cells(from, to);
        let along = cells::swept(
            line,
            |at: BlockPos| cells::body_cells(at).union(cells::near_cells(at, radius)),
        );
        let corners = cells::given(from.x != to.x && from.z != to.z, corner_cells(from, to));
        let of_kind = kind_cells(from, to, kind);
        let landing = cells::near_cells(to, 1);
        let lava = cells::given(
            hazard > 0,
            cells::swept(line, |at: BlockPos| cells::near_cells(at, hazard)),
        );
        cells::lemma_absorb_both(s0, s1, s2, ends, along);
        cells::lemma_absorb_both(s0, s2, s3, ends.union(along), corners);
        let corridor = ends.union(along).union(corners);
        cells::lemma_absorb_both(s0, s3, s4, corridor, of_kind);
        cells::lemma_absorb_both(s4, s5, builder, landing, lava);
        cells::lemma_absorb_both(s0, s4, builder, corridor.union(of_kind), landing.union(lava));
        lemma_absorbed_is_bounded(s0, builder, dependencies(from, to, kind, options));
    }
    finish(builder, edge_index, from, to)
}

/// Every footprint that is not broad covers the support, feet, head and head
/// room of both endpoints, the corners of a diagonal, and the landing
/// neighborhood.
pub proof fn narrow_footprints_cover_the_bodies(
    footprint: DependencyFootprint,
    from: BlockPos,
    to: BlockPos,
    kind: MoveKind,
    options: DependencyOptions,
    cell: BlockPos,
)
    requires
        traceable(from, to, kind),
        bounded(
            footprint,
            dependencies(from, to, kind, options.in_range()),
            options.in_range().max_blocks_per_edge,
        ),
        fits(
            dependencies(from, to, kind, options.in_range()),
            options.in_range().max_blocks_per_edge,
        ),
        cells::body_cells(from).contains(cell) || cells::body_cells(to).contains(cell) || (from.x
            != to.x && from.z != to.z && corner_cells(from, to).contains(cell))
            || cells::near_cells(to, 1).contains(cell),
    ensures
        footprint.covers().contains(cell),
{
}

} // verus!
