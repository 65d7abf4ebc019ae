//! Sets of cells that a transition depends on, and the bounded builder that
//! collects them.
use vstd::prelude::*;

use crate::local::world;
use crate::local::world::offset;
use crate::pos::BlockPos;
use crate::pos_map::PosMap;

verus! {

/// The cells a body at `at` touches: its support, feet, head, and the head
/// room of a jump or climb.
pub open spec fn body_cells(at: BlockPos) -> Set<BlockPos> {
    Set::new(
        |cell: BlockPos|
            cell == world::shift(at, 0, -1, 0) || cell == at || cell == world::shift(at, 0, 1, 0)
                || cell == world::shift(at, 0, 2, 0),
    )
}

/// The bodies of every column at most `radius` away from `at` on both axes.
pub open spec fn near_cells(at: BlockPos, radius: int) -> Set<BlockPos> {
    Set::new(
        |cell: BlockPos|
            exists|dx: int, dz: int|
                -radius <= dx <= radius && -radius <= dz <= radius && body_cells(
                    #[trigger] world::shift(at, dx, 0, dz),
                ).contains(cell),
    )
}

/// The union of a set of cells over every position of a line.
pub open spec fn swept(line: Seq<BlockPos>, cells: spec_fn(BlockPos) -> Set<BlockPos>) -> Set<
    BlockPos,
> {
    Set::new(
        |cell: BlockPos|
            exists|k: int| 0 <= k < line.len() && cells(#[trigger] line[k]).contains(cell),
    )
}

/// `cells` when a condition holds.
pub open spec fn given(condition: bool, cells: Set<BlockPos>) -> Set<BlockPos> {
    if condition {
        cells
    } else {
        Set::empty()
    }
}

pub proof fn lemma_swept_step(
    line: Seq<BlockPos>,
    cells: spec_fn(BlockPos) -> Set<BlockPos>,
    i: int,
)
    requires
        0 <= i < line.len(),
    ensures
        swept(line.take(i + 1), cells) == swept(line.take(i), cells).union(cells(line[i])),
{
    let longer = line.take(i + 1);
    let shorter = line.take(i);
    assert forall|cell: BlockPos| swept(longer, cells).contains(cell) <==> swept(
        shorter,
        cells,
    ).union(cells(line[i])).contains(cell) by {
        if swept(longer, cells).contains(cell) {
            let k = choose|k: int| 0 <= k < longer.len() && cells(#[trigger] longer[k]).contains(cell);
            if k < i {
                assert(shorter[k] == longer[k]);
            }
        }
        if swept(shorter, cells).contains(cell) {
            let k = choose|k: int| 0 <= k < shorter.len() && cells(#[trigger] shorter[k]).contains(cell);
            assert(longer[k] == shorter[k]);
        }
        if cells(line[i]).contains(cell) {
            assert(longer[i] == line[i]);
        }
    }
    assert(swept(longer, cells) =~= swept(shorter, cells).union(cells(line[i])));
}

pub proof fn lemma_swept_nothing(cells: spec_fn(BlockPos) -> Set<BlockPos>, line: Seq<BlockPos>)
    ensures
        swept(line.take(0), cells) == Set::<BlockPos>::empty(),
{
    assert(swept(line.take(0), cells) =~= Set::<BlockPos>::empty());
}

/// `found` continued by the cells of a list that it lacks, in their order, up
/// to a limit.
pub open spec fn gathered(found: Seq<BlockPos>, list: Seq<BlockPos>, maximum: usize) -> Seq<BlockPos>
    decreases list.len(),
{
    if list.len() == 0 {
        found
    } else {
        let before = gathered(found, list.drop_last(), maximum);
        if before.contains(list.last()) || before.len() >= maximum {
            before
        } else {
            before.push(list.last())
        }
    }
}

/// The first cells of a list, each once, up to a limit.
pub open spec fn retained(list: Seq<BlockPos>, maximum: usize) -> Set<BlockPos> {
    gathered(Seq::empty(), list, maximum).to_set()
}

/// The cells a body at `at` touches, from its support up.
pub open spec fn body_list(at: BlockPos) -> Seq<BlockPos> {
    seq![
        world::shift(at, 0, -1, 0),
        at,
        world::shift(at, 0, 1, 0),
        world::shift(at, 0, 2, 0),
    ]
}

/// The bodies of the columns around `at` that come before the one at an
/// offset, row by row.
pub open spec fn near_before(at: BlockPos, radius: int, dx: int, dz: int) -> Seq<BlockPos>
    decreases dx + radius, dz + radius,
{
    if dz > -radius {
        near_before(at, radius, dx, dz - 1) + body_list(world::shift(at, dx, 0, dz - 1))
    } else if dx > -radius {
        near_before(at, radius, dx - 1, radius + 1)
    } else {
        Seq::empty()
    }
}

/// The bodies of every column at most `radius` away from `at` on both axes, row
/// by row.
pub open spec fn near_list(at: BlockPos, radius: int) -> Seq<BlockPos> {
    near_before(at, radius, radius + 1, -radius)
}

/// The lists of every position of a line, one after the other.
pub open spec fn along(line: Seq<BlockPos>, list: spec_fn(BlockPos) -> Seq<BlockPos>) -> Seq<BlockPos>
    decreases line.len(),
{
    if line.len() == 0 {
        Seq::empty()
    } else {
        along(line.drop_last(), list) + list(line.last())
    }
}

/// A list when a condition holds.
pub open spec fn listed_if(condition: bool, list: Seq<BlockPos>) -> Seq<BlockPos> {
    if condition {
        list
    } else {
        Seq::empty()
    }
}

pub proof fn lemma_along_step(
    line: Seq<BlockPos>,
    list: spec_fn(BlockPos) -> Seq<BlockPos>,
    i: int,
)
    requires
        0 <= i < line.len(),
    ensures
        along(line.take(i + 1), list) == along(line.take(i), list) + list(line[i]),
{
    assert(line.take(i + 1).drop_last() =~= line.take(i));
}

/// Gathering one list and then another is gathering both.
proof fn lemma_gather_both(
    found: Seq<BlockPos>,
    first: Seq<BlockPos>,
    second: Seq<BlockPos>,
    maximum: usize,
)
    ensures
        gathered(found, first + second, maximum) == gathered(
            gathered(found, first, maximum),
            second,
            maximum,
        ),
    decreases second.len(),
{
    if second.len() == 0 {
        assert(first + second =~= first);
    } else {
        assert((first + second).drop_last() =~= first + second.drop_last());
        lemma_gather_both(found, first, second.drop_last(), maximum);
    }
}

/// Collects distinct cells up to a limit; past it, it turns broad and stops.
pub(crate) struct FootprintBuilder {
    pub(crate) found: Vec<BlockPos>,
    pub(crate) seen: PosMap<()>,
    pub(crate) maximum: usize,
    pub(crate) broad: bool,
}

impl FootprintBuilder {
    pub(crate) open spec fn cells(self) -> Set<BlockPos> {
        self.found@.to_set()
    }

    pub(crate) open spec fn wf(self) -> bool {
        &&& self.found@.no_duplicates()
        &&& self.found@.len() <= self.maximum
        &&& self.broad ==> self.found@.len() == self.maximum
        &&& forall|at: BlockPos| #[trigger]
            self.seen@.contains_key(at) <==> self.found@.contains(at)
    }

    /// `after` is this builder once `part` was offered to it: all of it is
    /// there, or the limit was hit and some of it is missing.
    pub(crate) open spec fn absorbs(self, after: FootprintBuilder, part: Set<BlockPos>) -> bool {
        &&& after.wf()
        &&& after.maximum == self.maximum
        &&& self.cells().subset_of(after.cells())
        &&& after.cells().subset_of(self.cells().union(part))
        &&& self.broad ==> after == self
        &&& !after.broad ==> after.cells() == self.cells().union(part)
        &&& after.broad && !self.broad ==> after.found@.len() == after.maximum && (exists|
            at: BlockPos,
        | #[trigger]
            part.contains(at) && !after.cells().contains(at))
    }

    /// `after` is this builder once a list was offered to it, cell by cell.
    pub(crate) open spec fn lists(self, after: FootprintBuilder, list: Seq<BlockPos>) -> bool {
        &&& after.maximum == self.maximum
        &&& after.found@ == gathered(self.found@, list, self.maximum)
    }

    pub(crate) fn new(maximum: usize) -> (builder: FootprintBuilder)
        ensures
            builder.wf(),
            builder.maximum == maximum,
            !builder.broad,
            builder.found@ == Seq::<BlockPos>::empty(),
            builder.cells() == Set::<BlockPos>::empty(),
    {
        let builder = FootprintBuilder {
            found: Vec::new(),
            seen: PosMap::new(),
            maximum,
            broad: false,
        };
        assert(builder.cells() =~= Set::<BlockPos>::empty());
        builder
    }

    pub(crate) fn include_cell(&mut self, at: BlockPos)
        requires
            old(self).wf(),
        ensures
            old(self).absorbs(*final(self), set![at]),
            old(self).lists(*final(self), seq![at]),
    {
        proof {
            let alone = seq![at];
            assert(alone.drop_last() =~= Seq::<BlockPos>::empty());
            assert(gathered(self.found@, alone.drop_last(), self.maximum) == self.found@);
        }
        if self.broad || self.seen.contains(at) {
            assert(self.cells() =~= old(self).cells().union(set![at]) || self.broad);
            return;
        }
        if self.found.len() >= self.maximum {
            self.broad = true;
            proof {
                assert(set![at].contains(at));
                assert(!self.cells().contains(at));
            }
            return;
        }
        self.found.push(at);
        self.seen.insert(at, ());
        proof {
            assert forall|p: BlockPos| #[trigger]
                self.seen@.contains_key(p) <==> self.found@.contains(p) by {
                if old(self).found@.contains(p) {
                    let k = choose|k: int|
                        0 <= k < old(self).found@.len() && old(self).found@[k] == p;
                    assert(self.found@[k] == p);
                }
                assert(self.found@[self.found@.len() - 1] == at);
            }
            assert(self.cells() =~= old(self).cells().union(set![at])) by {
                assert forall|p: BlockPos| self.cells().contains(p) <==> old(self).cells().union(
                    set![at],
                ).contains(p) by {
                    assert(self.seen@.contains_key(p) <==> self.found@.contains(p));
                }
            }
        }
    }

    pub(crate) fn body(&mut self, at: BlockPos)
        requires
            old(self).wf(),
        ensures
            old(self).absorbs(*final(self), body_cells(at)),
            old(self).lists(*final(self), body_list(at)),
    {
        let ghost s0 = *self;
        self.include_cell(offset(at, 0, -1, 0));
        let ghost s1 = *self;
        self.include_cell(at);
        let ghost s2 = *self;
        self.include_cell(offset(at, 0, 1, 0));
        let ghost s3 = *self;
        self.include_cell(offset(at, 0, 2, 0));
        proof {
            let a = set![world::shift(at, 0, -1, 0)];
            let b = set![at];
            let c = set![world::shift(at, 0, 1, 0)];
            let d = set![world::shift(at, 0, 2, 0)];
            lemma_absorb_both(s0, s1, s2, a, b);
            lemma_absorb_both(s0, s2, s3, a.union(b), c);
            lemma_absorb_both(s0, s3, *self, a.union(b).union(c), d);
            assert(a.union(b).union(c).union(d) =~= body_cells(at));
            let p = seq![world::shift(at, 0, -1, 0)];
            let q = seq![at];
            let r = seq![world::shift(at, 0, 1, 0)];
            let t = seq![world::shift(at, 0, 2, 0)];
            lemma_list_both(s0, s1, s2, p, q);
            lemma_list_both(s0, s2, s3, p + q, r);
            lemma_list_both(s0, s3, *self, p + q + r, t);
            assert(p + q + r + t =~= body_list(at));
        }
    }

    pub(crate) fn neighborhood(&mut self, at: BlockPos, radius: i32)
        requires
            old(self).wf(),
            0 <= radius <= 32,
        ensures
            old(self).absorbs(*final(self), near_cells(at, radius as int)),
            old(self).lists(*final(self), near_list(at, radius as int)),
    {
        let ghost start = *self;
        let mut dx: i32 = -radius;
        proof {
            lemma_absorb_nothing(start);
            assert(near_part(at, radius as int, -radius as int, -radius as int) =~= Set::empty());
        }
        while dx <= radius
            invariant
                0 <= radius <= 32,
                -radius <= dx <= radius + 1,
                start.absorbs(
                    *self,
                    near_part(at, radius as int, dx as int, -radius as int),
                ),
                start.lists(*self, near_before(at, radius as int, dx as int, -radius as int)),
            decreases radius + 1 - dx,
        {
            let mut dz: i32 = -radius;
            while dz <= radius
                invariant
                    0 <= radius <= 32,
                    -radius <= dx <= radius,
                    -radius <= dz <= radius + 1,
                    start.absorbs(*self, near_part(at, radius as int, dx as int, dz as int)),
                    start.lists(*self, near_before(at, radius as int, dx as int, dz as int)),
                decreases radius + 1 - dz,
            {
                let ghost before = *self;
                self.body(offset(at, dx, 0, dz));
                proof {
                    let part = near_part(at, radius as int, dx as int, dz as int);
                    let here = body_cells(world::shift(at, dx as int, 0, dz as int));
                    lemma_absorb_both(start, before, *self, part, here);
                    lemma_near_step(at, radius as int, dx as int, dz as int);
                    lemma_list_both(
                        start,
                        before,
                        *self,
                        near_before(at, radius as int, dx as int, dz as int),
                        body_list(world::shift(at, dx as int, 0, dz as int)),
                    );
                }
                dz += 1;
            }
            proof {
                lemma_near_row(at, radius as int, dx as int);
            }
            dx += 1;
        }
        assert(near_part(at, radius as int, radius + 1, -radius as int) =~= near_cells(
            at,
            radius as int,
        ));
    }
}

/// What the neighborhood loop has covered before it reaches `(dx, dz)`.
spec fn near_part(at: BlockPos, radius: int, dx: int, dz: int) -> Set<BlockPos> {
    Set::new(
        |cell: BlockPos|
            exists|ex: int, ez: int|
                -radius <= ex <= radius && -radius <= ez <= radius && (ex < dx || (ex == dx && ez
                    < dz)) && body_cells(#[trigger] world::shift(at, ex, 0, ez)).contains(cell),
    )
}

proof fn lemma_near_step(at: BlockPos, radius: int, dx: int, dz: int)
    requires
        -radius <= dx <= radius,
        -radius <= dz <= radius,
    ensures
        near_part(at, radius, dx, dz + 1) == near_part(at, radius, dx, dz).union(
            body_cells(world::shift(at, dx, 0, dz)),
        ),
{
    let here = world::shift(at, dx, 0, dz);
    assert forall|cell: BlockPos| near_part(at, radius, dx, dz + 1).contains(cell) <==> near_part(
        at,
        radius,
        dx,
        dz,
    ).union(body_cells(here)).contains(cell) by {
        if near_part(at, radius, dx, dz + 1).contains(cell) {
            let (ex, ez) = choose|ex: int, ez: int|
                -radius <= ex <= radius && -radius <= ez <= radius && (ex < dx || (ex == dx && ez
                    < dz + 1)) && body_cells(#[trigger] world::shift(at, ex, 0, ez)).contains(cell);
            if ex == dx && ez == dz {
                assert(body_cells(here).contains(cell));
            } else {
                assert(body_cells(world::shift(at, ex, 0, ez)).contains(cell));
            }
        }
    }
    assert(near_part(at, radius, dx, dz + 1) =~= near_part(at, radius, dx, dz).union(
        body_cells(here),
    ));
}

proof fn lemma_near_row(at: BlockPos, radius: int, dx: int)
    ensures
        near_part(at, radius, dx, radius + 1) == near_part(at, radius, dx + 1, -radius),
{
    assert(near_part(at, radius, dx, radius + 1) =~= near_part(at, radius, dx + 1, -radius));
}

/// Offering one part and then another is offering their union.
pub(crate) proof fn lemma_absorb_both(
    a: FootprintBuilder,
    b: FootprintBuilder,
    c: FootprintBuilder,
    first: Set<BlockPos>,
    second: Set<BlockPos>,
)
    requires
        a.absorbs(b, first),
        b.absorbs(c, second),
    ensures
        a.absorbs(c, first.union(second)),
{
    let both = first.union(second);
    assert(c.cells().subset_of(a.cells().union(both)));
    if !c.broad {
        assert(c.cells() =~= a.cells().union(both));
    }
    if c.broad && !a.broad {
        if b.broad {
            let at = choose|at: BlockPos| #[trigger] first.contains(at) && !b.cells().contains(at);
            assert(both.contains(at) && !c.cells().contains(at));
        } else {
            let at = choose|at: BlockPos| #[trigger] second.contains(at) && !c.cells().contains(at);
            assert(both.contains(at));
        }
    }
}

/// Offering one list and then another is offering both.
pub(crate) proof fn lemma_list_both(
    a: FootprintBuilder,
    b: FootprintBuilder,
    c: FootprintBuilder,
    first: Seq<BlockPos>,
    second: Seq<BlockPos>,
)
    requires
        a.lists(b, first),
        b.lists(c, second),
    ensures
        a.lists(c, first + second),
{
    lemma_gather_both(a.found@, first, second, a.maximum);
}

/// A builder that is offered nothing stays as it is.
pub(crate) proof fn lemma_absorb_nothing(a: FootprintBuilder)
    requires
        a.wf(),
    ensures
        a.absorbs(a, Set::empty()),
        a.lists(a, Seq::empty()),
{
    assert(a.cells() =~= a.cells().union(Set::empty()));
}

} // verus!
