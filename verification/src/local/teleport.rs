//! Item-teleport extension points. They describe teleport edges authored
//! elsewhere and offer none of their own.
use vstd::prelude::*;

use crate::adaptive::features::PrimitiveId;
use crate::local::moves::{Edge, Move, MoveContext};
use crate::local::world::{Terrain, WorldView};
use crate::planning;
use crate::planning::{metadata_from_generated_edge, MotionMetadata};
use crate::pos::BlockPos;

verus! {

/// The Aspect of the Void teleport.
#[derive(Clone, Copy, PartialEq, Eq, Structural, Debug)]
pub struct AotvMove;

impl Move for AotvMove {
    open spec fn offers(&self, from: BlockPos, terrain: Terrain, ctx: &MoveContext) -> Seq<Edge> {
        Seq::empty()
    }

    open spec fn describes(
        &self,
        from: BlockPos,
        edge: Edge,
        terrain: Terrain,
        ctx: &MoveContext,
    ) -> Option<MotionMetadata> {
        Some(
            planning::generated_metadata(
                PrimitiveId(PrimitiveId::AOTV),
                from,
                edge.to,
                edge.kind,
                terrain,
                ctx,
                edge.cost,
            ),
        )
    }

    open spec fn respects_bound(&self) -> bool {
        true
    }

    fn candidates<W: WorldView + ?Sized>(
        &self,
        from: BlockPos,
        world: &W,
        ctx: &MoveContext,
        out: &mut Vec<Edge>,
    ) {
        assert(out@ =~= old(out)@ + Seq::<Edge>::empty());
    }

    fn supports_builtin_heuristic(&self) -> (r: bool) {
        true
    }

    fn metadata<W: WorldView + ?Sized>(
        &self,
        from: BlockPos,
        edge: &Edge,
        world: &W,
        ctx: &MoveContext,
    ) -> (described: Option<MotionMetadata>) {
        Some(
            metadata_from_generated_edge(
                PrimitiveId(PrimitiveId::AOTV),
                from,
                edge.to,
                edge.kind,
                world,
                ctx,
                edge.cost,
            ),
        )
    }
}

/// The Etherwarp teleport.
#[derive(Clone, Copy, PartialEq, Eq, Structural, Debug)]
pub struct EtherwarpMove;

impl Move for EtherwarpMove {
    open spec fn offers(&self, from: BlockPos, terrain: Terrain, ctx: &MoveContext) -> Seq<Edge> {
        Seq::empty()
    }

    open spec fn describes(
        &self,
        from: BlockPos,
        edge: Edge,
        terrain: Terrain,
        ctx: &MoveContext,
    ) -> Option<MotionMetadata> {
        Some(
            planning::generated_metadata(
                PrimitiveId(PrimitiveId::ETHERWARP),
                from,
                edge.to,
                edge.kind,
                terrain,
                ctx,
                edge.cost,
            ),
        )
    }

    open spec fn respects_bound(&self) -> bool {
        true
    }

    fn candidates<W: WorldView + ?Sized>(
        &self,
        from: BlockPos,
        world: &W,
        ctx: &MoveContext,
        out: &mut Vec<Edge>,
    ) {
        assert(out@ =~= old(out)@ + Seq::<Edge>::empty());
    }

    fn supports_builtin_heuristic(&self) -> (r: bool) {
        true
    }

    fn metadata<W: WorldView + ?Sized>(
        &self,
        from: BlockPos,
        edge: &Edge,
        world: &W,
        ctx: &MoveContext,
    ) -> (described: Option<MotionMetadata>) {
        Some(
            metadata_from_generated_edge(
                PrimitiveId(PrimitiveId::ETHERWARP),
                from,
                edge.to,
                edge.kind,
                world,
                ctx,
                edge.cost,
            ),
        )
    }
}

} // verus!
