//! The graph that a path search explores, and the laws of its walks.
use vstd::prelude::*;

use crate::arith;
use crate::adaptive::model;
use crate::adaptive::model::CostModelSnapshot;
use crate::local::goal;
use crate::local::goal::{BlockGoal, Goal};
use crate::local::moves;
use crate::local::moves::{Edge, Move, MoveContext};
use crate::local::rules::bound;
use crate::local::rules::builtin::BuiltinMove;
use crate::local::tolls;
use crate::local::world::Terrain;
use crate::planning;
use crate::planning::MotionMetadata;
use crate::pos::BlockPos;
use crate::types::Cost;

verus! {

/// One step of a walk: a rule, and one of the transitions it offers.
pub struct Hop {
    pub rule: int,
    pub choice: int,
}

/// Everything that decides which walks exist and what they cost.
pub struct Problem<M> {
    pub terrain: Terrain,
    pub ctx: MoveContext,
    pub moves: Seq<M>,
    pub model: Option<CostModelSnapshot>,
}

impl<M: Move> Problem<M> {
    /// The transitions that a rule offers at `from`.
    pub open spec fn menu(self, from: BlockPos, rule: int) -> Seq<Edge> {
        self.moves[rule].offers(from, self.terrain, &self.ctx)
    }

    /// The transition that a hop takes.
    pub open spec fn edge(self, from: BlockPos, hop: Hop) -> Edge {
        self.menu(from, hop.rule)[hop.choice]
    }

    /// Whether the lava policy allows a step between two positions.
    pub open spec fn lava_allows(self, from: BlockPos, to: BlockPos) -> bool {
        moves::transition_allowed(
            tolls::lava_danger(self.terrain, from, &self.ctx),
            tolls::lava_danger(self.terrain, to, &self.ctx),
            self.ctx.lava_policy,
        )
    }

    /// Whether a hop can be taken from `from`.
    pub open spec fn legal(self, from: BlockPos, hop: Hop) -> bool {
        &&& 0 <= hop.rule < self.moves.len()
        &&& 0 <= hop.choice < self.menu(from, hop.rule).len()
        &&& self.lava_allows(from, self.edge(from, hop).to)
    }

    /// The rule's metadata, kept only when it accounts for the whole cost.
    pub open spec fn account(self, from: BlockPos, rule: int, edge: Edge) -> Option<MotionMetadata> {
        match self.moves[rule].describes(from, edge, self.terrain, &self.ctx) {
            Some(metadata) => if metadata.predicted.sum() == edge.cost {
                Some(metadata)
            } else {
                None
            },
            None => None,
        }
    }

    /// What a transition costs under the model, before the destination's toll.
    pub open spec fn charge(self, from: BlockPos, rule: int, edge: Edge) -> Cost {
        match (self.model, self.account(from, rule, edge)) {
            (Some(model), Some(metadata)) => model.adapted(
                metadata.primitive,
                metadata.features,
                metadata.predicted,
            ).sum(),
            _ => edge.cost,
        }
    }

    pub open spec fn toll(self, pos: BlockPos) -> Cost {
        tolls::standing_toll(self.terrain, pos, &self.ctx)
    }

    /// The full cost of a hop.
    pub open spec fn price(self, from: BlockPos, hop: Hop) -> int {
        self.charge(from, hop.rule, self.edge(from, hop)) + self.toll(self.edge(from, hop).to)
    }

    /// Where a walk from `start` ends.
    pub open spec fn end(self, start: BlockPos, hops: Seq<Hop>) -> BlockPos
        decreases hops.len(),
    {
        if hops.len() == 0 {
            start
        } else {
            self.edge(self.end(start, hops.drop_last()), hops.last()).to
        }
    }

    /// Whether every hop of a walk can be taken.
    pub open spec fn walkable(self, start: BlockPos, hops: Seq<Hop>) -> bool
        decreases hops.len(),
    {
        hops.len() == 0 || (self.walkable(start, hops.drop_last()) && self.legal(
            self.end(start, hops.drop_last()),
            hops.last(),
        ))
    }

    /// The sum of the prices along a walk.
    pub open spec fn length(self, start: BlockPos, hops: Seq<Hop>) -> int
        decreases hops.len(),
    {
        if hops.len() == 0 {
            0
        } else {
            self.length(start, hops.drop_last()) + self.price(
                self.end(start, hops.drop_last()),
                hops.last(),
            )
        }
    }

    /// Whether a search may finish at `pos`: the goal accepts it and it is safe.
    pub open spec fn finishes<G: Goal + ?Sized>(self, goal: &G, pos: BlockPos) -> bool {
        &&& goal.accepts(pos)
        &&& tolls::lava_danger(self.terrain, pos, &self.ctx) == 0
        &&& !tolls::forbidden_water(self.terrain, pos, &self.ctx)
    }

    /// Whether a search may order its frontier by the goal's lower bound.
    pub open spec fn guided<G: Goal + ?Sized>(self, goal: &G, start: BlockPos) -> bool {
        &&& match self.model {
            Some(model) => !model.routes(),
            None => true,
        }
        &&& forall|i: int|
            0 <= i < self.moves.len() ==> (#[trigger] self.moves[i]).respects_bound()
        &&& goal.lower_bound(start, &self.ctx) is Some
    }

    /// The estimate used to order the frontier.
    pub open spec fn estimate<G: Goal + ?Sized>(
        self,
        goal: &G,
        guided: bool,
        pos: BlockPos,
    ) -> Cost {
        match goal.lower_bound(pos, &self.ctx) {
            Some(bound) => if guided {
                bound
            } else {
                0
            },
            None => 0,
        }
    }

    /// Whether the estimate never exceeds the cost of any walk that finishes.
    pub open spec fn admissible<G: Goal + ?Sized>(self, goal: &G, guided: bool) -> bool {
        forall|pos: BlockPos, hops: Seq<Hop>|
            self.walkable(pos, hops) && self.finishes(goal, #[trigger] self.end(pos, hops))
                ==> self.estimate(goal, guided, pos) <= self.length(pos, hops)
    }

    /// Whether `cost` is the least cost of a walk that finishes.
    pub open spec fn optimal<G: Goal + ?Sized>(
        self,
        goal: &G,
        start: BlockPos,
        cost: Cost,
    ) -> bool {
        forall|hops: Seq<Hop>|
            self.walkable(start, hops) && self.finishes(goal, #[trigger] self.end(start, hops))
                ==> cost <= self.length(start, hops)
    }

    /// Whether no hop lowers the estimate by more than its price.
    pub open spec fn consistent<G: Goal + ?Sized>(self, goal: &G, guided: bool) -> bool {
        forall|from: BlockPos, hop: Hop| #[trigger]
            self.legal(from, hop) ==> self.estimate(goal, guided, from) <= self.price(from, hop)
                + self.estimate(goal, guided, self.edge(from, hop).to)
    }

    /// Whether no walk to `pos` costs less than `cost`.
    pub open spec fn cheapest(self, start: BlockPos, pos: BlockPos, cost: int) -> bool {
        forall|hops: Seq<Hop>|
            self.walkable(start, hops) && #[trigger] self.end(start, hops) == pos ==> cost
                <= self.length(start, hops)
    }

    /// Whether some position can be walked to, but only at a cost that does not
    /// fit below the largest [`Cost`] once its estimate is added.
    pub open spec fn overflows<G: Goal + ?Sized>(
        self,
        goal: &G,
        guided: bool,
        start: BlockPos,
    ) -> bool {
        exists|hops: Seq<Hop>| #[trigger]
            self.walkable(start, hops) && self.cheapest(
                start,
                self.end(start, hops),
                Cost::MAX - self.estimate(goal, guided, self.end(start, hops)),
            )
    }

    /// Whether a set holds every position that can be walked to.
    pub open spec fn encloses(self, start: BlockPos, places: Set<BlockPos>) -> bool {
        forall|hops: Seq<Hop>|
            self.walkable(start, hops) ==> places.contains(#[trigger] self.end(start, hops))
    }

    /// Whether at most `limit` positions can be walked to.
    pub open spec fn confined(self, start: BlockPos, limit: nat) -> bool {
        exists|places: Set<BlockPos>| #[trigger]
            self.encloses(start, places) && places.finite() && places.len() <= limit
    }

    /// Whether a walk comes to no position twice.
    pub open spec fn simple(self, start: BlockPos, hops: Seq<Hop>) -> bool {
        forall|i: int, j: int|
            0 <= i < j <= hops.len() ==> #[trigger] self.end(start, hops.take(i))
                != #[trigger] self.end(start, hops.take(j))
    }

    /// Whether `hops` is a walk to `pos` for `cost` that comes to no position
    /// twice.
    pub open spec fn arrives(
        self,
        start: BlockPos,
        pos: BlockPos,
        cost: Cost,
        hops: Seq<Hop>,
    ) -> bool {
        &&& self.walkable(start, hops)
        &&& self.simple(start, hops)
        &&& self.end(start, hops) == pos
        &&& arith::clamp_u32(self.length(start, hops)) == cost
    }

    /// Whether a set holds every position and cost that a walk arrives with.
    pub open spec fn lists_arrivals(
        self,
        start: BlockPos,
        arrivals: Set<(BlockPos, Cost)>,
    ) -> bool {
        forall|pos: BlockPos, cost: Cost, hops: Seq<Hop>| #[trigger]
            self.arrives(start, pos, cost, hops) ==> arrivals.contains((pos, cost))
    }

    /// Whether walks that come to no position twice arrive in at most `limit`
    /// ways that differ in where they end or in what they cost.
    pub open spec fn few_arrivals(self, start: BlockPos, limit: nat) -> bool {
        exists|arrivals: Set<(BlockPos, Cost)>| #[trigger]
            self.lists_arrivals(start, arrivals) && arrivals.finite() && arrivals.len() <= limit
    }

    /// Whether a rule offers more than `limit` transitions somewhere that can be
    /// walked to.
    pub open spec fn oversized(self, start: BlockPos, limit: nat) -> bool {
        exists|hops: Seq<Hop>, rule: int|
            self.walkable(start, hops) && 0 <= rule < self.moves.len() && (#[trigger] self.menu(
                self.end(start, hops),
                rule,
            )).len() > limit
    }

    /// Whether every offered transition comes with metadata that accounts for
    /// its whole cost.
    pub open spec fn described(self) -> bool {
        forall|from: BlockPos, hop: Hop|
            0 <= hop.rule < self.moves.len() && 0 <= hop.choice < self.menu(from, hop.rule).len()
                ==> #[trigger] self.account(from, hop.rule, self.edge(from, hop)) is Some
    }

    /// A walk continued by one more hop.
    pub proof fn lemma_push(self, start: BlockPos, hops: Seq<Hop>, hop: Hop)
        ensures
            self.end(start, hops.push(hop)) == self.edge(self.end(start, hops), hop).to,
            self.length(start, hops.push(hop)) == self.length(start, hops) + self.price(
                self.end(start, hops),
                hop,
            ),
            self.walkable(start, hops.push(hop)) == (self.walkable(start, hops) && self.legal(
                self.end(start, hops),
                hop,
            )),
    {
        assert(hops.push(hop).drop_last() =~= hops);
    }

    /// Walks have no negative cost.
    pub proof fn lemma_length_nonneg(self, start: BlockPos, hops: Seq<Hop>)
        ensures
            self.length(start, hops) >= 0,
        decreases hops.len(),
    {
        if hops.len() > 0 {
            self.lemma_length_nonneg(start, hops.drop_last());
        }
    }

    /// A walk can be cut anywhere: its rest starts where its beginning ends,
    /// and the costs add up.
    pub proof fn lemma_cut(self, start: BlockPos, hops: Seq<Hop>, at: int)
        requires
            0 <= at <= hops.len(),
        ensures
            self.end(start, hops) == self.end(self.end(start, hops.take(at)), hops.skip(at)),
            self.length(start, hops) == self.length(start, hops.take(at)) + self.length(
                self.end(start, hops.take(at)),
                hops.skip(at),
            ),
            self.walkable(start, hops) == (self.walkable(start, hops.take(at)) && self.walkable(
                self.end(start, hops.take(at)),
                hops.skip(at),
            )),
        decreases hops.len() - at,
    {
        if at == hops.len() {
            assert(hops.take(at) =~= hops);
            assert(hops.skip(at) =~= Seq::<Hop>::empty());
        } else {
            let shorter = hops.drop_last();
            self.lemma_cut(start, shorter, at);
            assert(shorter.take(at) =~= hops.take(at));
            assert(hops.skip(at).drop_last() =~= shorter.skip(at));
            assert(hops.skip(at).last() == hops.last());
        }
    }

    /// A consistent estimate drops along a walk by no more than its length.
    pub proof fn lemma_estimate_along_walk<G: Goal + ?Sized>(
        self,
        goal: &G,
        guided: bool,
        start: BlockPos,
        hops: Seq<Hop>,
    )
        requires
            self.consistent(goal, guided),
            self.walkable(start, hops),
        ensures
            self.estimate(goal, guided, start) <= self.length(start, hops) + self.estimate(
                goal,
                guided,
                self.end(start, hops),
            ),
        decreases hops.len(),
    {
        if hops.len() > 0 {
            let shorter = hops.drop_last();
            self.lemma_estimate_along_walk(goal, guided, start, shorter);
            assert(self.legal(self.end(start, shorter), hops.last()));
        }
    }
}

/// The costs below `bound` at one position.
spec fn cheaper_at(pos: BlockPos, bound: nat) -> Set<(BlockPos, Cost)> {
    Set::new(|arrival: (BlockPos, Cost)| arrival.0 == pos && arrival.1 < bound)
}

proof fn lemma_cheaper_at(pos: BlockPos, bound: nat)
    requires
        bound <= Cost::MAX + 1,
    ensures
        cheaper_at(pos, bound).finite(),
        cheaper_at(pos, bound).len() == bound,
    decreases bound,
{
    if bound == 0 {
        assert(cheaper_at(pos, bound) =~= Set::empty());
    } else {
        let less = (bound - 1) as nat;
        lemma_cheaper_at(pos, less);
        assert(cheaper_at(pos, bound) =~= cheaper_at(pos, less).insert((pos, less as Cost)));
    }
}

/// The costs below `bound` at each of a set of positions.
spec fn cheaper_within(places: Set<BlockPos>, bound: nat) -> Set<(BlockPos, Cost)> {
    Set::new(|arrival: (BlockPos, Cost)| places.contains(arrival.0) && arrival.1 < bound)
}

proof fn lemma_cheaper_within(places: Set<BlockPos>, bound: nat)
    requires
        places.finite(),
        bound <= Cost::MAX + 1,
    ensures
        cheaper_within(places, bound).finite(),
        cheaper_within(places, bound).len() <= places.len() * bound,
    decreases places.len(),
{
    if places.len() == 0 {
        assert(places =~= Set::empty());
        assert(cheaper_within(places, bound) =~= Set::empty());
    } else {
        let pos = places.choose();
        let fewer = places.remove(pos);
        lemma_cheaper_within(fewer, bound);
        lemma_cheaper_at(pos, bound);
        assert(cheaper_within(places, bound) =~= cheaper_within(fewer, bound).union(
            cheaper_at(pos, bound),
        ));
        vstd::set_lib::lemma_len_union(cheaper_within(fewer, bound), cheaper_at(pos, bound));
        assert(places.len() * bound == fewer.len() * bound + bound) by (nonlinear_arith)
            requires
                places.len() == fewer.len() + 1,
        ;
    }
}

/// Among finitely many positions there are finitely many ways to arrive: no more
/// than the positions times the costs that walks among them come to.
pub proof fn confined_walks_have_few_arrivals<M: Move>(
    problem: Problem<M>,
    start: BlockPos,
    places: Set<BlockPos>,
    bound: nat,
)
    requires
        places.finite(),
        problem.encloses(start, places),
        bound <= Cost::MAX + 1,
        forall|hops: Seq<Hop>| #[trigger]
            problem.walkable(start, hops) && problem.simple(start, hops) ==> arith::clamp_u32(
                problem.length(start, hops),
            ) < bound,
    ensures
        problem.few_arrivals(start, places.len() * bound),
{
    lemma_cheaper_within(places, bound);
    let arrivals = cheaper_within(places, bound);
    assert forall|pos: BlockPos, cost: Cost, hops: Seq<Hop>| #[trigger]
        problem.arrives(start, pos, cost, hops) implies arrivals.contains((pos, cost)) by {
        assert(places.contains(problem.end(start, hops)));
        assert(problem.walkable(start, hops));
    }
    assert(problem.lists_arrivals(start, arrivals));
}

/// The standard moves describe every transition they offer.
pub proof fn standard_moves_are_described(problem: Problem<BuiltinMove>)
    ensures
        problem.described(),
{
    assert forall|from: BlockPos, hop: Hop|
        0 <= hop.rule < problem.moves.len() && 0 <= hop.choice < problem.menu(
            from,
            hop.rule,
        ).len() implies #[trigger] problem.account(from, hop.rule, problem.edge(from, hop))
        is Some by {
        let edge = problem.edge(from, hop);
        let metadata = problem.moves[hop.rule].describes(
            from,
            edge,
            problem.terrain,
            &problem.ctx,
        )->0;
        planning::metadata_total_is_generated_cost(
            metadata.primitive,
            from,
            edge.to,
            edge.kind,
            problem.terrain,
            &problem.ctx,
            edge.cost,
        );
    }
}

/// The lower bound is admissible for the standard moves and a block goal, for
/// all movement costs: a guided search still finds a cheapest path.
pub proof fn block_goals_are_admissible(problem: Problem<BuiltinMove>, target: BlockGoal)
    requires
        problem.model matches Some(model) ==> !model.routes(),
    ensures
        problem.admissible(&target, true),
        problem.admissible(&target, false),
{
    assert forall|pos: BlockPos, hops: Seq<Hop>|
        problem.walkable(pos, hops) && problem.finishes(
            &target,
            #[trigger] problem.end(pos, hops),
        ) implies problem.estimate(&target, true, pos) <= problem.length(pos, hops)
        && problem.estimate(&target, false, pos) <= problem.length(pos, hops) by {
        lemma_bound_along_walk(problem, target, pos, hops);
        problem.lemma_length_nonneg(pos, hops);
        goal::bound_is_zero_at_the_goal(
            problem.end(pos, hops),
            target.center(),
            target.slack(),
            problem.ctx.costs,
        );
    }
}

/// The lower bound is consistent for the standard moves and a block goal, for
/// all movement costs: a search guided by it never finds a cheaper way to a
/// position it has examined.
pub proof fn block_goals_are_consistent(problem: Problem<BuiltinMove>, target: BlockGoal)
    requires
        problem.model matches Some(model) ==> !model.routes(),
    ensures
        problem.consistent(&target, true),
{
    assert forall|from: BlockPos, hop: Hop| #[trigger] problem.legal(from, hop) implies problem.estimate(
        &target,
        true,
        from,
    ) <= problem.price(from, hop) + problem.estimate(
        &target,
        true,
        problem.edge(from, hop).to,
    ) by {
        let none = Seq::<Hop>::empty();
        problem.lemma_push(from, none, hop);
        lemma_bound_along_walk(problem, target, from, none.push(hop));
    }
}

/// A search without a lower bound is consistent whatever its moves and its goal
/// are.
pub proof fn unguided_searches_are_consistent<M: Move, G: Goal + ?Sized>(
    problem: Problem<M>,
    goal: &G,
)
    ensures
        problem.consistent(goal, false),
{
}

proof fn lemma_bound_along_walk(
    problem: Problem<BuiltinMove>,
    target: BlockGoal,
    start: BlockPos,
    hops: Seq<Hop>,
)
    requires
        problem.walkable(start, hops),
        problem.model matches Some(model) ==> !model.routes(),
    ensures
        goal::block_bound(start, target.center(), target.slack(), problem.ctx.costs)
            <= problem.length(start, hops) + goal::block_bound(
            problem.end(start, hops),
            target.center(),
            target.slack(),
            problem.ctx.costs,
        ),
    decreases hops.len(),
{
    if hops.len() > 0 {
        let shorter = hops.drop_last();
        lemma_bound_along_walk(problem, target, start, shorter);
        let from = problem.end(start, shorter);
        let hop = hops.last();
        let edge = problem.edge(from, hop);
        let costs = problem.ctx.costs;
        bound::standard_moves_pay_their_way(
            problem.moves[hop.rule],
            from,
            problem.terrain,
            &problem.ctx,
        );
        assert(goal::pays_its_way(from, problem.menu(from, hop.rule)[hop.choice], costs));
        target.lemma_slack();
        goal::bound_drops_by_at_most_the_cost(from, edge, target.center(), target.slack(), costs);
        if let Some(frozen) = problem.model {
            if let Some(metadata) = problem.account(from, hop.rule, edge) {
                model::baseline_models_change_nothing(
                    frozen,
                    metadata.primitive,
                    metadata.features,
                    metadata.predicted,
                );
            }
        }
        assert(problem.charge(from, hop.rule, edge) == edge.cost);
    }
}

} // verus!
