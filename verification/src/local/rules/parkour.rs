//! Running jumps across gaps.
use vstd::prelude::*;

use crate::adaptive::features::PrimitiveId;
use crate::arith::saturating_mul_u32;
use crate::local::moves;
use crate::local::moves::{
    dry_standable, generated_drop_limit, in_water, on_climbable, on_partial, open, Edge, Move,
    MoveContext, SAFE_FALL,
};
use crate::local::rules::offer;
use crate::local::world;
use crate::local::world::{offset, BlockKind, Terrain, WorldView};
use crate::planning;
use crate::planning::{metadata_from_generated_edge, MotionMetadata};
use crate::pos::BlockPos;
use crate::types::{Cost, MoveKind};
use crate::arith;

verus! {

/// Jump a gap, landing two to four blocks away in any direction.
///
/// A run-up buys distance: the longest jumps need a runway behind the takeoff,
/// while an ordinary two-block gap can be cleared from a standstill. Every
/// intermediate column must be a real gap, otherwise walking covers it more
/// cheaply.
#[derive(Clone, Copy, PartialEq, Eq, Structural, Debug)]
pub struct ParkourMove;

/// The square of the horizontal distance of a landing offset.
pub open spec fn reach_squared(ox: int, oz: int) -> int {
    ox * ox + oz * oz
}

/// Whether an offset is a jump at all: shorter ones are walked, and four blocks
/// is the longest flat jump.
pub open spec fn jumpable(ox: int, oz: int) -> bool {
    4 <= reach_squared(ox, oz) <= 16
}

/// The distance of a jump rounded to whole blocks.
pub open spec fn travel_blocks(squared: int) -> int {
    if squared <= 6 {
        2
    } else if squared <= 12 {
        3
    } else {
        4
    }
}

/// The least number at or above `side` whose square is at least `n`.
pub open spec fn least_side(n: int, side: int) -> int
    decreases n - side,
{
    if side >= n || side * side >= n {
        side
    } else {
        least_side(n, side + 1)
    }
}

/// Four samples per block of flight, rounded up.
pub open spec fn flight_samples(squared: int) -> int {
    least_side(16 * squared, 1)
}

/// `n / d` rounded to the nearest integer, halves away from zero.
pub open spec fn rounded(n: int, d: int) -> int {
    if n >= 0 {
        (2 * n + d) / (2 * d)
    } else {
        -((d - 2 * n) / (2 * d))
    }
}

/// The column under a jump at one sample of its straight line.
pub open spec fn flown_over(from: BlockPos, ox: int, oz: int, sample: int) -> BlockPos {
    let samples = flight_samples(reach_squared(ox, oz));
    world::shift(from, rounded(ox * sample, samples), 0, rounded(oz * sample, samples))
}

/// Whether every column strictly between takeoff and landing satisfies `clear`.
pub open spec fn gap_is(
    from: BlockPos,
    ox: int,
    oz: int,
    clear: spec_fn(BlockPos) -> bool,
) -> bool {
    forall|sample: int|
        1 <= sample < flight_samples(reach_squared(ox, oz)) ==> {
            let mid = #[trigger] flown_over(from, ox, oz, sample);
            mid == from || mid == world::shift(from, ox, 0, oz) || clear(mid)
        }
}

/// Open space in the column of `mid` from `low` to `high`.
pub open spec fn shaft_open(terrain: Terrain, mid: BlockPos, low: int, high: int) -> bool {
    forall|dy: int|
        low <= dy <= high ==> terrain.free(#[trigger] world::shift(mid, 0, dy, 0))
}

/// No footing in the column of `mid` from `low` to `high`.
pub open spec fn shaft_bare(terrain: Terrain, mid: BlockPos, low: int, high: int) -> bool {
    forall|dy: int|
        low <= dy <= high ==> !terrain.stands(#[trigger] world::shift(mid, 0, dy, 0))
}

/// A column crossed on the level or while rising.
pub open spec fn crossable(terrain: Terrain, mid: BlockPos, head: int) -> bool {
    !terrain.stands(mid) && shaft_open(terrain, mid, 0, head)
}

/// A column crossed while dropping `drop` blocks.
pub open spec fn droppable(terrain: Terrain, mid: BlockPos, drop: int) -> bool {
    shaft_open(terrain, mid, -drop, 2) && shaft_bare(terrain, mid, -drop, 0)
}

pub open spec fn sign(n: int) -> int {
    if n > 0 {
        1
    } else if n < 0 {
        -1
    } else {
        0
    }
}

/// Footing `(bx, bz)` away, within a block of level.
pub open spec fn footing(terrain: Terrain, from: BlockPos, bx: int, bz: int) -> bool {
    (bx != 0 || bz != 0) && (terrain.dry_stands(world::shift(from, bx, -1, bz))
        || terrain.dry_stands(world::shift(from, bx, 0, bz)) || terrain.dry_stands(
        world::shift(from, bx, 1, bz),
    ))
}

/// Whether there is somewhere to run up from, `back` blocks behind the takeoff
/// along the jump or along either of its axes.
pub open spec fn run_up(terrain: Terrain, from: BlockPos, ox: int, oz: int, back: int) -> bool {
    let bx = -(sign(ox) * back);
    let bz = -(sign(oz) * back);
    footing(terrain, from, bx, bz) || footing(terrain, from, bx, 0) || footing(
        terrain,
        from,
        0,
        bz,
    )
}

/// The longest squared reach of a jump. Climbing and a standing start both eat
/// into the arc.
pub open spec fn longest_squared(rise: int, has_runway: bool) -> int {
    if !has_runway {
        9
    } else if rise > 0 {
        10
    } else {
        16
    }
}

/// A jump that lands level or one block up.
pub open spec fn rising_jump(
    from: BlockPos,
    ox: int,
    oz: int,
    rise: int,
    terrain: Terrain,
    ctx: &MoveContext,
) -> Seq<Edge> {
    let to = world::shift(from, ox, rise, oz);
    let squared = reach_squared(ox, oz);
    let blocks = travel_blocks(squared);
    offer::offer(
        {
            &&& squared <= longest_squared(rise, run_up(terrain, from, ox, oz, 1))
            &&& terrain.dry_stands(to)
            &&& gap_is(from, ox, oz, |mid: BlockPos| crossable(terrain, mid, 2 + rise))
            &&& terrain.free(world::shift(to, 0, 1, 0))
            &&& rise > 0 ==> terrain.free(world::shift(from, 0, 2 + rise, 0))
            &&& squared > 12 ==> run_up(terrain, from, ox, oz, 2)
        },
        Edge {
            to,
            kind: MoveKind::Parkour { blocks: blocks as u8, rise: rise as i8 },
            cost: arith::clamp_u32(
                ctx.costs.parkour_per_block * blocks + ctx.costs.jump * rise,
            ),
        },
    )
}

/// A jump that lands `drop` or more blocks lower, on the first footing below
/// the far end of the line.
pub open spec fn falling_jump(
    from: BlockPos,
    ox: int,
    oz: int,
    drop: int,
    limit: int,
    terrain: Terrain,
    ctx: &MoveContext,
) -> Seq<Edge>
    decreases limit + 1 - drop,
{
    let to = world::shift(from, ox, -drop, oz);
    let blocks = travel_blocks(reach_squared(ox, oz));
    if drop > limit {
        Seq::empty()
    } else if !terrain.dry_stands(to) {
        if terrain.free(to) && terrain.free(world::shift(to, 0, 1, 0)) {
            falling_jump(from, ox, oz, drop + 1, limit, terrain, ctx)
        } else {
            Seq::empty()
        }
    } else {
        offer::offer(
            {
                &&& gap_is(from, ox, oz, |mid: BlockPos| droppable(terrain, mid, drop))
                &&& terrain.free(world::shift(to, 0, 1, 0))
                &&& blocks >= 3 ==> run_up(terrain, from, ox, oz, 1)
            },
            Edge {
                to,
                kind: MoveKind::Parkour { blocks: blocks as u8, rise: (-drop) as i8 },
                cost: arith::clamp_u32(
                    ctx.costs.parkour_per_block * blocks + ctx.costs.fall_per_block * drop
                        + ctx.fall_damage_penalty * moves::fall_damage(drop),
                ),
            },
        )
    }
}

/// Every jump towards one landing offset.
pub open spec fn jumps_towards(
    from: BlockPos,
    ox: int,
    oz: int,
    terrain: Terrain,
    ctx: &MoveContext,
) -> Seq<Edge> {
    if jumpable(ox, oz) {
        rising_jump(from, ox, oz, 0, terrain, ctx) + rising_jump(from, ox, oz, 1, terrain, ctx)
            + falling_jump(from, ox, oz, 1, moves::drop_limit(ctx.max_fall), terrain, ctx)
    } else {
        Seq::empty()
    }
}

/// The number of landing offsets.
pub const LANDINGS: usize = 40;

/// The four offsets `a` blocks away along one axis.
pub open spec fn straight_landing(a: int, turn: int) -> (int, int) {
    if turn == 0 {
        (-a, 0)
    } else if turn == 1 {
        (0, -a)
    } else if turn == 2 {
        (0, a)
    } else {
        (a, 0)
    }
}

/// The four offsets `a` blocks away along both axes.
pub open spec fn corner_landing(a: int, turn: int) -> (int, int) {
    if turn == 0 {
        (-a, -a)
    } else if turn == 1 {
        (-a, a)
    } else if turn == 2 {
        (a, -a)
    } else {
        (a, a)
    }
}

/// The eight offsets `a` blocks away along one axis and `b` along the other.
pub open spec fn skewed_landing(a: int, b: int, turn: int) -> (int, int) {
    if turn == 0 {
        (-a, -b)
    } else if turn == 1 {
        (-a, b)
    } else if turn == 2 {
        (-b, -a)
    } else if turn == 3 {
        (-b, a)
    } else if turn == 4 {
        (b, -a)
    } else if turn == 5 {
        (b, a)
    } else if turn == 6 {
        (a, -b)
    } else {
        (a, b)
    }
}

/// The landing offset at index `k`: nearest first, and by `x` and then `z`
/// where they are as far.
pub open spec fn landing(k: int) -> (int, int) {
    if k < 4 {
        straight_landing(2, k)
    } else if k < 12 {
        skewed_landing(2, 1, k - 4)
    } else if k < 16 {
        corner_landing(2, k - 12)
    } else if k < 20 {
        straight_landing(3, k - 16)
    } else if k < 28 {
        skewed_landing(3, 1, k - 20)
    } else if k < 36 {
        skewed_landing(3, 2, k - 28)
    } else {
        straight_landing(4, k - 36)
    }
}

/// The squared distance of the landing offset at index `k`.
pub open spec fn landing_squared(k: int) -> int {
    if k < 4 {
        4
    } else if k < 12 {
        5
    } else if k < 16 {
        8
    } else if k < 20 {
        9
    } else if k < 28 {
        10
    } else if k < 36 {
        13
    } else {
        16
    }
}

proof fn lemma_small_square(n: int)
    requires
        -4 <= n <= 4,
    ensures
        n * n == (if n == 0 {
            0int
        } else if n == 1 || n == -1 {
            1
        } else if n == 2 || n == -2 {
            4
        } else if n == 3 || n == -3 {
            9
        } else {
            16
        }),
{
    assert(n == -4 ==> n * n == 16) by (nonlinear_arith);
    assert(n == -3 ==> n * n == 9) by (nonlinear_arith);
    assert(n == -2 ==> n * n == 4) by (nonlinear_arith);
    assert(n == -1 ==> n * n == 1) by (nonlinear_arith);
    assert(n == 0 ==> n * n == 0) by (nonlinear_arith);
    assert(n == 1 ==> n * n == 1) by (nonlinear_arith);
    assert(n == 2 ==> n * n == 4) by (nonlinear_arith);
    assert(n == 3 ==> n * n == 9) by (nonlinear_arith);
    assert(n == 4 ==> n * n == 16) by (nonlinear_arith);
}

/// Every landing offset is a jump within four blocks on both axes.
pub proof fn lemma_landing(k: int)
    requires
        0 <= k < LANDINGS,
    ensures
        -4 <= landing(k).0 <= 4,
        -4 <= landing(k).1 <= 4,
        reach_squared(landing(k).0, landing(k).1) == landing_squared(k),
        jumpable(landing(k).0, landing(k).1),
{
    lemma_small_square(landing(k).0);
    lemma_small_square(landing(k).1);
}

/// Nearer landings come before farther ones.
pub proof fn nearest_landings_come_first(i: int, j: int)
    requires
        0 <= i <= j < LANDINGS,
    ensures
        reach_squared(landing(i).0, landing(i).1) <= reach_squared(landing(j).0, landing(j).1),
{
    lemma_landing(i);
    lemma_landing(j);
}

/// Where in its ring an offset comes.
spec fn turn_of(ox: int, oz: int) -> int {
    if ox == 0 || oz == 0 {
        if ox < 0 {
            0
        } else if oz < 0 {
            1
        } else if oz > 0 {
            2
        } else {
            3
        }
    } else if ox == oz || ox == -oz {
        (if ox < 0 {
            0int
        } else {
            2
        }) + (if oz < 0 {
            0int
        } else {
            1
        })
    } else {
        let wide = arith::abs_int(ox) > arith::abs_int(oz);
        (if ox < 0 {
            if wide {
                0int
            } else {
                2
            }
        } else if wide {
            6
        } else {
            4
        }) + (if oz < 0 {
            0int
        } else {
            1
        })
    }
}

/// Every offset that can be jumped is a landing, nothing else is, and no two
/// landings are the same.
pub proof fn every_landing_comes_once(ox: int, oz: int)
    ensures
        jumpable(ox, oz) <==> exists|k: int| 0 <= k < LANDINGS && #[trigger] landing(k) == (ox, oz),
        forall|i: int, j: int|
            0 <= i < j < LANDINGS ==> #[trigger] landing(i) != #[trigger] landing(j),
{
    if jumpable(ox, oz) {
        assert(-4 <= ox <= 4 && -4 <= oz <= 4) by (nonlinear_arith)
            requires
                ox * ox + oz * oz <= 16,
        ;
        lemma_small_square(ox);
        lemma_small_square(oz);
        let squared = reach_squared(ox, oz);
        let first: int = if squared == 4 {
            0
        } else if squared == 5 {
            4
        } else if squared == 8 {
            12
        } else if squared == 9 {
            16
        } else if squared == 10 {
            20
        } else if squared == 13 {
            28
        } else {
            36
        };
        assert(landing(first + turn_of(ox, oz)) == (ox, oz));
    }
    if exists|k: int| 0 <= k < LANDINGS && #[trigger] landing(k) == (ox, oz) {
        let k = choose|k: int| 0 <= k < LANDINGS && #[trigger] landing(k) == (ox, oz);
        lemma_landing(k);
    }
}

/// The jumps towards the first `n` landing offsets.
pub open spec fn jumps_among(
    from: BlockPos,
    n: nat,
    terrain: Terrain,
    ctx: &MoveContext,
) -> Seq<Edge>
    decreases n,
{
    if n == 0 {
        Seq::empty()
    } else {
        let k = n - 1;
        jumps_among(from, k as nat, terrain, ctx) + jumps_towards(
            from,
            landing(k).0,
            landing(k).1,
            terrain,
            ctx,
        )
    }
}

/// Whether a jump can start: on solid or partial ground with head room.
pub open spec fn can_take_off(from: BlockPos, terrain: Terrain) -> bool {
    &&& !terrain.wet(from)
    &&& !terrain.climbable(from)
    &&& terrain.free(world::shift(from, 0, 1, 0))
    &&& terrain.free(world::shift(from, 0, 2, 0))
    &&& terrain.partial(from) || terrain.kind(world::shift(from, 0, -1, 0)) is Solid
}

pub open spec fn parkour_offers(from: BlockPos, terrain: Terrain, ctx: &MoveContext) -> Seq<Edge> {
    if can_take_off(from, terrain) {
        jumps_among(from, LANDINGS as nat, terrain, ctx)
    } else {
        Seq::empty()
    }
}

fn sample_count(squared: i32) -> (n: i32)
    requires
        4 <= squared <= 16,
    ensures
        n == flight_samples(squared as int),
        1 <= n <= 16,
{
    let wanted: i32 = 16 * squared;
    let mut side: i32 = 1;
    while side * side < wanted
        invariant
            4 <= squared <= 16,
            wanted == 16 * squared,
            1 <= side <= 16,
            side * side <= 256,
            flight_samples(squared as int) == least_side(wanted as int, side as int),
        decreases 16 - side,
    {
        assert(side < 16) by (nonlinear_arith)
            requires
                side * side < wanted,
                wanted <= 256,
                1 <= side <= 16,
        ;
        side += 1;
        assert(side * side <= 256) by (nonlinear_arith)
            requires
                1 <= side <= 16,
        ;
    }
    side
}

fn round_ratio(n: i32, d: i32) -> (r: i32)
    requires
        -64 <= n <= 64,
        1 <= d <= 16,
    ensures
        r == rounded(n as int, d as int),
{
    if n >= 0 {
        (2 * n + d) / (2 * d)
    } else {
        -((d - 2 * n) / (2 * d))
    }
}

fn sample_column(from: BlockPos, ox: i32, oz: i32, sample: i32, samples: i32) -> (mid: BlockPos)
    requires
        -4 <= ox <= 4,
        -4 <= oz <= 4,
        1 <= sample < samples <= 16,
        samples == flight_samples(reach_squared(ox as int, oz as int)),
    ensures
        mid == flown_over(from, ox as int, oz as int, sample as int),
{
    assert(-64 <= ox * sample <= 64 && -64 <= oz * sample <= 64) by (nonlinear_arith)
        requires
            -4 <= ox <= 4,
            -4 <= oz <= 4,
            1 <= sample <= 16,
    ;
    offset(from, round_ratio(ox * sample, samples), 0, round_ratio(oz * sample, samples))
}

fn is_shaft_open<W: WorldView + ?Sized>(world: &W, mid: BlockPos, low: i32, high: i32) -> (r: bool)
    requires
        -127 <= low <= 0,
        0 <= high <= 3,
    ensures
        r == shaft_open(world.terrain(), mid, low as int, high as int),
{
    let mut dy: i32 = low;
    while dy <= high
        invariant
            -127 <= low <= dy <= high + 1,
            high <= 3,
            forall|k: int|
                low <= k < dy ==> world.terrain().free(#[trigger] world::shift(mid, 0, k, 0)),
        decreases high + 1 - dy,
    {
        if !open(world, offset(mid, 0, dy, 0)) {
            assert(!world.terrain().free(world::shift(mid, 0, dy as int, 0)));
            return false;
        }
        dy += 1;
    }
    true
}

fn is_shaft_bare<W: WorldView + ?Sized>(world: &W, mid: BlockPos, low: i32, high: i32) -> (r: bool)
    requires
        -127 <= low <= 0,
        0 <= high <= 3,
    ensures
        r == shaft_bare(world.terrain(), mid, low as int, high as int),
{
    let mut dy: i32 = low;
    while dy <= high
        invariant
            -127 <= low <= dy <= high + 1,
            high <= 3,
            forall|k: int|
                low <= k < dy ==> !world.terrain().stands(#[trigger] world::shift(mid, 0, k, 0)),
        decreases high + 1 - dy,
    {
        if world.standable(offset(mid, 0, dy, 0)) {
            assert(world.terrain().stands(world::shift(mid, 0, dy as int, 0)));
            return false;
        }
        dy += 1;
    }
    true
}

/// The squared reach of an offset within four blocks.
fn squared_reach(ox: i32, oz: i32) -> (squared: i32)
    requires
        -4 <= ox <= 4,
        -4 <= oz <= 4,
    ensures
        squared == reach_squared(ox as int, oz as int),
        0 <= squared <= 32,
{
    assert(0 <= ox * ox <= 16 && 0 <= oz * oz <= 16) by (nonlinear_arith)
        requires
            -4 <= ox <= 4,
            -4 <= oz <= 4,
    ;
    ox * ox + oz * oz
}

fn level_gap<W: WorldView + ?Sized>(
    world: &W,
    from: BlockPos,
    ox: i32,
    oz: i32,
    head: i32,
) -> (r: bool)
    requires
        -4 <= ox <= 4,
        -4 <= oz <= 4,
        jumpable(ox as int, oz as int),
        2 <= head <= 3,
    ensures
        r == gap_is(
            from,
            ox as int,
            oz as int,
            |mid: BlockPos| crossable(world.terrain(), mid, head as int),
        ),
{
    let ghost clear = |mid: BlockPos| crossable(world.terrain(), mid, head as int);
    let samples: i32 = sample_count(squared_reach(ox, oz));
    let landing = offset(from, ox, 0, oz);
    // Neighbouring samples often share a column, which is checked once.
    let mut last = from;
    let mut sample: i32 = 1;
    while sample < samples
        invariant
            -4 <= ox <= 4,
            -4 <= oz <= 4,
            2 <= head <= 3,
            1 <= sample <= samples <= 16,
            samples == flight_samples(reach_squared(ox as int, oz as int)),
            landing == world::shift(from, ox as int, 0, oz as int),
            clear == (|mid: BlockPos| crossable(world.terrain(), mid, head as int)),
            last == from || last == landing || clear(last),
            forall|k: int|
                1 <= k < sample ==> {
                    let mid = #[trigger] flown_over(from, ox as int, oz as int, k);
                    mid == from || mid == landing || clear(mid)
                },
        decreases samples - sample,
    {
        let mid = sample_column(from, ox, oz, sample, samples);
        if mid != last && mid != from && mid != landing {
            if world.standable(mid) || !is_shaft_open(world, mid, 0, head) {
                assert(!clear(flown_over(from, ox as int, oz as int, sample as int)));
                return false;
            }
        }
        last = mid;
        sample += 1;
    }
    true
}

fn dropping_gap<W: WorldView + ?Sized>(
    world: &W,
    from: BlockPos,
    ox: i32,
    oz: i32,
    drop: i32,
) -> (r: bool)
    requires
        -4 <= ox <= 4,
        -4 <= oz <= 4,
        jumpable(ox as int, oz as int),
        1 <= drop <= 127,
    ensures
        r == gap_is(
            from,
            ox as int,
            oz as int,
            |mid: BlockPos| droppable(world.terrain(), mid, drop as int),
        ),
{
    let ghost clear = |mid: BlockPos| droppable(world.terrain(), mid, drop as int);
    let samples: i32 = sample_count(squared_reach(ox, oz));
    let landing = offset(from, ox, 0, oz);
    let mut last = from;
    let mut sample: i32 = 1;
    while sample < samples
        invariant
            -4 <= ox <= 4,
            -4 <= oz <= 4,
            1 <= drop <= 127,
            1 <= sample <= samples <= 16,
            samples == flight_samples(reach_squared(ox as int, oz as int)),
            landing == world::shift(from, ox as int, 0, oz as int),
            clear == (|mid: BlockPos| droppable(world.terrain(), mid, drop as int)),
            last == from || last == landing || clear(last),
            forall|k: int|
                1 <= k < sample ==> {
                    let mid = #[trigger] flown_over(from, ox as int, oz as int, k);
                    mid == from || mid == landing || clear(mid)
                },
        decreases samples - sample,
    {
        let mid = sample_column(from, ox, oz, sample, samples);
        if mid != last && mid != from && mid != landing {
            if !is_shaft_open(world, mid, -drop, 2) || !is_shaft_bare(world, mid, -drop, 0) {
                assert(!clear(flown_over(from, ox as int, oz as int, sample as int)));
                return false;
            }
        }
        last = mid;
        sample += 1;
    }
    true
}

fn has_footing<W: WorldView + ?Sized>(world: &W, from: BlockPos, bx: i32, bz: i32) -> (r: bool)
    ensures
        r == footing(world.terrain(), from, bx as int, bz as int),
{
    (bx != 0 || bz != 0) && (dry_standable(world, offset(from, bx, -1, bz)) || dry_standable(
        world,
        offset(from, bx, 0, bz),
    ) || dry_standable(world, offset(from, bx, 1, bz)))
}

fn behind(component: i32, back: i32) -> (b: i32)
    requires
        1 <= back <= 2,
    ensures
        b == -(sign(component as int) * back),
{
    if component > 0 {
        -back
    } else if component < 0 {
        back
    } else {
        0
    }
}

fn has_run_up<W: WorldView + ?Sized>(
    world: &W,
    from: BlockPos,
    ox: i32,
    oz: i32,
    back: i32,
) -> (r: bool)
    requires
        1 <= back <= 2,
    ensures
        r == run_up(world.terrain(), from, ox as int, oz as int, back as int),
{
    let bx: i32 = behind(ox, back);
    let bz: i32 = behind(oz, back);
    has_footing(world, from, bx, bz) || has_footing(world, from, bx, 0) || has_footing(
        world,
        from,
        0,
        bz,
    )
}

fn whole_blocks(squared: i32) -> (blocks: u8)
    ensures
        blocks == travel_blocks(squared as int),
{
    if squared <= 6 {
        2
    } else if squared <= 12 {
        3
    } else {
        4
    }
}

fn push_rising<W: WorldView + ?Sized>(
    from: BlockPos,
    ox: i32,
    oz: i32,
    rise: i32,
    world: &W,
    ctx: &MoveContext,
    out: &mut Vec<Edge>,
)
    requires
        -4 <= ox <= 4,
        -4 <= oz <= 4,
        jumpable(ox as int, oz as int),
        0 <= rise <= 1,
    ensures
        final(out)@ == old(out)@ + rising_jump(
            from,
            ox as int,
            oz as int,
            rise as int,
            world.terrain(),
            ctx,
        ),
{
    assert(old(out)@ + Seq::<Edge>::empty() =~= old(out)@);
    let squared: i32 = squared_reach(ox, oz);
    let limit: i32 = if !has_run_up(world, from, ox, oz, 1) {
        9
    } else if rise > 0 {
        10
    } else {
        16
    };
    if squared > limit {
        return;
    }
    let to = offset(from, ox, rise, oz);
    if !dry_standable(world, to) {
        return;
    }
    let head: i32 = 2 + rise;
    if !level_gap(world, from, ox, oz, head) {
        return;
    }
    // Room to land without clipping the head, and to get over the lip on the way.
    if !open(world, offset(to, 0, 1, 0)) {
        return;
    }
    if rise > 0 && !open(world, offset(from, 0, head, 0)) {
        return;
    }
    // The longest jumps need more than one block of run-up.
    if squared > 12 && !has_run_up(world, from, ox, oz, 2) {
        return;
    }
    let blocks: u8 = whole_blocks(squared);
    proof {
        let p = ctx.costs.parkour_per_block as int;
        let b = blocks as int;
        assert(p * b >= 0) by (nonlinear_arith)
            requires
                p >= 0,
                b >= 0,
        ;
        let j = ctx.costs.jump as int;
        let r = rise as int;
        assert(j * r >= 0) by (nonlinear_arith)
            requires
                j >= 0,
                r >= 0,
        ;
    }
    let cost: Cost = saturating_mul_u32(
        ctx.costs.parkour_per_block,
        blocks as u32,
    ).saturating_add(saturating_mul_u32(ctx.costs.jump, rise as u32));
    out.push(Edge { to, kind: MoveKind::Parkour { blocks, rise: rise as i8 }, cost });
}

fn push_falling<W: WorldView + ?Sized>(
    from: BlockPos,
    ox: i32,
    oz: i32,
    world: &W,
    ctx: &MoveContext,
    out: &mut Vec<Edge>,
)
    requires
        -4 <= ox <= 4,
        -4 <= oz <= 4,
        jumpable(ox as int, oz as int),
    ensures
        final(out)@ == old(out)@ + falling_jump(
            from,
            ox as int,
            oz as int,
            1,
            moves::drop_limit(ctx.max_fall),
            world.terrain(),
            ctx,
        ),
{
    let ghost t = world.terrain();
    let ghost gx = ox as int;
    let ghost gz = oz as int;
    assert(old(out)@ + Seq::<Edge>::empty() =~= old(out)@);
    let limit: i32 = generated_drop_limit(ctx.max_fall);
    let blocks: u8 = whole_blocks(squared_reach(ox, oz));
    let mut drop: i32 = 1;
    while drop <= limit
        invariant
            t == world.terrain(),
            gx == ox,
            gz == oz,
            -4 <= ox <= 4,
            -4 <= oz <= 4,
            jumpable(ox as int, oz as int),
            blocks == travel_blocks(reach_squared(gx, gz)),
            0 <= limit <= 127,
            1 <= drop <= limit + 1,
            out@ == old(out)@,
            old(out)@ + Seq::<Edge>::empty() == old(out)@,
            falling_jump(from, gx, gz, 1, limit as int, t, ctx) == falling_jump(
                from,
                gx,
                gz,
                drop as int,
                limit as int,
                t,
                ctx,
            ),
            limit == moves::drop_limit(ctx.max_fall),
        decreases limit + 1 - drop,
    {
        let to = offset(from, ox, -drop, oz);
        if dry_standable(world, to) {
            if dropping_gap(world, from, ox, oz, drop) && open(world, offset(to, 0, 1, 0)) && (
            blocks < 3 || has_run_up(world, from, ox, oz, 1)) {
                let hurt: u32 = if drop > SAFE_FALL {
                    (drop - SAFE_FALL) as u32
                } else {
                    0
                };
                proof {
                    let p = ctx.costs.parkour_per_block as int;
                    let b = blocks as int;
                    assert(p * b >= 0) by (nonlinear_arith)
                        requires
                            p >= 0,
                            b >= 0,
                    ;
                    let f = ctx.costs.fall_per_block as int;
                    let d = drop as int;
                    assert(f * d >= 0) by (nonlinear_arith)
                        requires
                            f >= 0,
                            d >= 0,
                    ;
                    let q = ctx.fall_damage_penalty as int;
                    let h = hurt as int;
                    assert(q * h >= 0) by (nonlinear_arith)
                        requires
                            q >= 0,
                            h >= 0,
                    ;
                }
                let cost: Cost = saturating_mul_u32(
                    ctx.costs.parkour_per_block,
                    blocks as u32,
                ).saturating_add(
                    saturating_mul_u32(ctx.costs.fall_per_block, drop as u32),
                ).saturating_add(saturating_mul_u32(ctx.fall_damage_penalty, hurt));
                let encoded_rise: i8 = (-drop) as i8;
                out.push(
                    Edge { to, kind: MoveKind::Parkour { blocks, rise: encoded_rise }, cost },
                );
            }
            return;
        }
        // Keep descending through clear air until the first viable landing.
        if !open(world, to) || !open(world, offset(to, 0, 1, 0)) {
            return;
        }
        drop += 1;
    }
}

fn push_jumps<W: WorldView + ?Sized>(
    from: BlockPos,
    ox: i32,
    oz: i32,
    world: &W,
    ctx: &MoveContext,
    out: &mut Vec<Edge>,
)
    requires
        -4 <= ox <= 4,
        -4 <= oz <= 4,
    ensures
        final(out)@ == old(out)@ + jumps_towards(
            from,
            ox as int,
            oz as int,
            world.terrain(),
            ctx,
        ),
{
    let squared: i32 = squared_reach(ox, oz);
    if squared < 4 || squared > 16 {
        assert(out@ =~= old(out)@ + Seq::<Edge>::empty());
        return;
    }
    push_rising(from, ox, oz, 0, world, ctx, out);
    push_rising(from, ox, oz, 1, world, ctx, out);
    push_falling(from, ox, oz, world, ctx, out);
    proof {
        let t = world.terrain();
        let a = rising_jump(from, ox as int, oz as int, 0, t, ctx);
        let b = rising_jump(from, ox as int, oz as int, 1, t, ctx);
        let c = falling_jump(
            from,
            ox as int,
            oz as int,
            1,
            moves::drop_limit(ctx.max_fall),
            t,
            ctx,
        );
        offer::lemma_two_in_turn(old(out)@, a, b);
        offer::lemma_two_in_turn(old(out)@, a + b, c);
    }
}

fn push_straight(offsets: &mut Vec<(i32, i32)>, a: i32)
    requires
        0 <= a <= 4,
    ensures
        final(offsets)@ == old(offsets)@ + seq![(-a as i32, 0i32), (0i32, -a as i32), (0i32, a), (a, 0i32)],
{
    offsets.push((-a, 0));
    offsets.push((0, -a));
    offsets.push((0, a));
    offsets.push((a, 0));
}

fn push_skewed(offsets: &mut Vec<(i32, i32)>, a: i32, b: i32)
    requires
        0 <= a <= 4,
        0 <= b <= 4,
    ensures
        final(offsets)@ == old(offsets)@ + seq![
            (-a as i32, -b as i32),
            (-a as i32, b),
            (-b as i32, -a as i32),
            (-b as i32, a),
            (b, -a as i32),
            (b, a),
            (a, -b as i32),
            (a, b),
        ],
{
    offsets.push((-a, -b));
    offsets.push((-a, b));
    offsets.push((-b, -a));
    offsets.push((-b, a));
    offsets.push((b, -a));
    offsets.push((b, a));
    offsets.push((a, -b));
    offsets.push((a, b));
}

/// Every landing offset worth considering, nearest first.
///
/// Stepping stones, ruined bridges and rock faces put the next foothold off the
/// axes. Offsets shorter than two blocks are left out because walking or
/// stepping up already covers them, and more cheaply.
pub fn jump_offsets() -> (offsets: Vec<(i32, i32)>)
    ensures
        offsets@.len() == LANDINGS,
        forall|k: int|
            0 <= k < LANDINGS ==> (#[trigger] offsets@[k]).0 == landing(k).0 && offsets@[k].1
                == landing(k).1,
{
    let mut offsets: Vec<(i32, i32)> = Vec::new();
    push_straight(&mut offsets, 2);
    push_skewed(&mut offsets, 2, 1);
    offsets.push((-2, -2));
    offsets.push((-2, 2));
    offsets.push((2, -2));
    offsets.push((2, 2));
    push_straight(&mut offsets, 3);
    push_skewed(&mut offsets, 3, 1);
    push_skewed(&mut offsets, 3, 2);
    push_straight(&mut offsets, 4);
    offsets
}

impl Move for ParkourMove {
    open spec fn offers(&self, from: BlockPos, terrain: Terrain, ctx: &MoveContext) -> Seq<Edge> {
        parkour_offers(from, terrain, ctx)
    }

    open spec fn describes(
        &self,
        from: BlockPos,
        edge: Edge,
        terrain: Terrain,
        ctx: &MoveContext,
    ) -> Option<MotionMetadata> {
        Some(
            planning::generated_metadata(
                PrimitiveId(PrimitiveId::PARKOUR),
                from,
                edge.to,
                edge.kind,
                terrain,
                ctx,
                edge.cost,
            ),
        )
    }

    open spec fn respects_bound(&self) -> bool {
        true
    }

    fn candidates<W: WorldView + ?Sized>(
        &self,
        from: BlockPos,
        world: &W,
        ctx: &MoveContext,
        out: &mut Vec<Edge>,
    ) {
        let ghost t = world.terrain();
        // A sprint jump is all takeoff velocity, and neither a swimmer nor a
        // climber has any.
        if in_water(world, from) || on_climbable(world, from) || !open(
            world,
            offset(from, 0, 1, 0),
        ) || !open(world, offset(from, 0, 2, 0)) || (!on_partial(world, from) && world.block(
            offset(from, 0, -1, 0),
        ) != BlockKind::Solid) {
            assert(out@ =~= old(out)@ + Seq::<Edge>::empty());
            return;
        }
        assert(out@ =~= old(out)@ + jumps_among(from, 0, t, ctx));
        let offsets = jump_offsets();
        let mut k: usize = 0;
        while k < offsets.len()
            invariant
                0 <= k <= offsets@.len(),
                offsets@.len() == LANDINGS,
                forall|i: int|
                    0 <= i < LANDINGS ==> (#[trigger] offsets@[i]).0 == landing(i).0
                        && offsets@[i].1 == landing(i).1,
                t == world.terrain(),
                out@ == old(out)@ + jumps_among(from, k as nat, t, ctx),
            decreases LANDINGS - k,
        {
            let (ox, oz): (i32, i32) = offsets[k];
            proof {
                lemma_landing(k as int);
            }
            push_jumps(from, ox, oz, world, ctx, out);
            proof {
                offer::lemma_two_in_turn(
                    old(out)@,
                    jumps_among(from, k as nat, t, ctx),
                    jumps_towards(from, ox as int, oz as int, t, ctx),
                );
            }
            k += 1;
        }
    }

    fn supports_builtin_heuristic(&self) -> (r: bool) {
        true
    }

    fn metadata<W: WorldView + ?Sized>(
        &self,
        from: BlockPos,
        edge: &Edge,
        world: &W,
        ctx: &MoveContext,
    ) -> (described: Option<MotionMetadata>) {
        Some(
            metadata_from_generated_edge(
                PrimitiveId(PrimitiveId::PARKOUR),
                from,
                edge.to,
                edge.kind,
                world,
                ctx,
                edge.cost,
            ),
        )
    }
}

} // verus!
