//! The standard set of movement rules.
use vstd::prelude::*;

use crate::local::moves::{Edge, Move, MoveContext};
use crate::local::rules::climb::ClimbMove;
use crate::local::rules::fall::FallMove;
use crate::local::rules::parkour::ParkourMove;
use crate::local::rules::swim::SwimMove;
use crate::local::rules::walk::{JumpMove, WalkMove};
use crate::local::teleport::{AotvMove, EtherwarpMove};
use crate::local::world::{Terrain, WorldView};
use crate::planning::MotionMetadata;
use crate::pos::BlockPos;

verus! {

/// One of the standard movement rules.
#[derive(Clone, Copy, PartialEq, Eq, Structural, Debug)]
pub enum BuiltinMove {
    Walk(WalkMove),
    Jump(JumpMove),
    Climb(ClimbMove),
    Parkour(ParkourMove),
    Swim(SwimMove),
    Fall(FallMove),
    Aotv(AotvMove),
    Etherwarp(EtherwarpMove),
}

impl Move for BuiltinMove {
    open spec fn offers(&self, from: BlockPos, terrain: Terrain, ctx: &MoveContext) -> Seq<Edge> {
        match self {
            BuiltinMove::Walk(rule) => rule.offers(from, terrain, ctx),
            BuiltinMove::Jump(rule) => rule.offers(from, terrain, ctx),
            BuiltinMove::Climb(rule) => rule.offers(from, terrain, ctx),
            BuiltinMove::Parkour(rule) => rule.offers(from, terrain, ctx),
            BuiltinMove::Swim(rule) => rule.offers(from, terrain, ctx),
            BuiltinMove::Fall(rule) => rule.offers(from, terrain, ctx),
            BuiltinMove::Aotv(rule) => rule.offers(from, terrain, ctx),
            BuiltinMove::Etherwarp(rule) => rule.offers(from, terrain, ctx),
        }
    }

    open spec fn describes(
        &self,
        from: BlockPos,
        edge: Edge,
        terrain: Terrain,
        ctx: &MoveContext,
    ) -> Option<MotionMetadata> {
        match self {
            BuiltinMove::Walk(rule) => rule.describes(from, edge, terrain, ctx),
            BuiltinMove::Jump(rule) => rule.describes(from, edge, terrain, ctx),
            BuiltinMove::Climb(rule) => rule.describes(from, edge, terrain, ctx),
            BuiltinMove::Parkour(rule) => rule.describes(from, edge, terrain, ctx),
            BuiltinMove::Swim(rule) => rule.describes(from, edge, terrain, ctx),
            BuiltinMove::Fall(rule) => rule.describes(from, edge, terrain, ctx),
            BuiltinMove::Aotv(rule) => rule.describes(from, edge, terrain, ctx),
            BuiltinMove::Etherwarp(rule) => rule.describes(from, edge, terrain, ctx),
        }
    }

    open spec fn respects_bound(&self) -> bool {
        true
    }

    fn candidates<W: WorldView + ?Sized>(
        &self,
        from: BlockPos,
        world: &W,
        ctx: &MoveContext,
        out: &mut Vec<Edge>,
    ) {
        match self {
            BuiltinMove::Walk(rule) => rule.candidates(from, world, ctx, out),
            BuiltinMove::Jump(rule) => rule.candidates(from, world, ctx, out),
            BuiltinMove::Climb(rule) => rule.candidates(from, world, ctx, out),
            BuiltinMove::Parkour(rule) => rule.candidates(from, world, ctx, out),
            BuiltinMove::Swim(rule) => rule.candidates(from, world, ctx, out),
            BuiltinMove::Fall(rule) => rule.candidates(from, world, ctx, out),
            BuiltinMove::Aotv(rule) => rule.candidates(from, world, ctx, out),
            BuiltinMove::Etherwarp(rule) => rule.candidates(from, world, ctx, out),
        }
    }

    fn supports_builtin_heuristic(&self) -> (r: bool) {
        true
    }

    fn metadata<W: WorldView + ?Sized>(
        &self,
        from: BlockPos,
        edge: &Edge,
        world: &W,
        ctx: &MoveContext,
    ) -> (described: Option<MotionMetadata>) {
        match self {
            BuiltinMove::Walk(rule) => rule.metadata(from, edge, world, ctx),
            BuiltinMove::Jump(rule) => rule.metadata(from, edge, world, ctx),
            BuiltinMove::Climb(rule) => rule.metadata(from, edge, world, ctx),
            BuiltinMove::Parkour(rule) => rule.metadata(from, edge, world, ctx),
            BuiltinMove::Swim(rule) => rule.metadata(from, edge, world, ctx),
            BuiltinMove::Fall(rule) => rule.metadata(from, edge, world, ctx),
            BuiltinMove::Aotv(rule) => rule.metadata(from, edge, world, ctx),
            BuiltinMove::Etherwarp(rule) => rule.metadata(from, edge, world, ctx),
        }
    }
}

/// The standard rules in the order they are asked.
pub open spec fn standard_moves() -> Seq<BuiltinMove> {
    seq![
        BuiltinMove::Walk(WalkMove),
        BuiltinMove::Jump(JumpMove),
        BuiltinMove::Climb(ClimbMove),
        BuiltinMove::Parkour(ParkourMove),
        BuiltinMove::Swim(SwimMove),
        BuiltinMove::Fall(FallMove),
        BuiltinMove::Aotv(AotvMove),
        BuiltinMove::Etherwarp(EtherwarpMove),
    ]
}

/// Standard walking, jumping, falling, and teleport extension points.
pub fn default_moves() -> (moves: Vec<BuiltinMove>)
    ensures
        moves@ == standard_moves(),
{
    let mut moves: Vec<BuiltinMove> = Vec::new();
    moves.push(BuiltinMove::Walk(WalkMove));
    moves.push(BuiltinMove::Jump(JumpMove));
    moves.push(BuiltinMove::Climb(ClimbMove));
    moves.push(BuiltinMove::Parkour(ParkourMove));
    moves.push(BuiltinMove::Swim(SwimMove));
    moves.push(BuiltinMove::Fall(FallMove));
    moves.push(BuiltinMove::Aotv(AotvMove));
    moves.push(BuiltinMove::Etherwarp(EtherwarpMove));
    assert(moves@ =~= standard_moves());
    moves
}

} // verus!
