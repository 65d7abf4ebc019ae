use azalea_pathfinder::local::moves::Edge;
use azalea_pathfinder::local::teleport::{AotvMove, EtherwarpMove};
use azalea_pathfinder::local::world::standable_by_blocks;
use azalea_pathfinder::{BlockKind, BlockPos, Move, MoveContext, MoveKind, PrimitiveId, WorldView};

struct EmptyWorld;

impl WorldView for EmptyWorld {
    fn block(&self, _pos: BlockPos) -> BlockKind {
        BlockKind::Air
    }

    fn standable(&self, pos: BlockPos) -> bool {
        standable_by_blocks(self, pos)
    }
}

fn described<M: Move>(movement: &M, edge: Edge, primitive: PrimitiveId) {
    let from = BlockPos::new(0, 64, 0);
    let context = MoveContext::default();
    let metadata = movement
        .metadata(from, &edge, &EmptyWorld, &context)
        .expect("teleport edge omitted metadata");
    assert_eq!(metadata.primitive, primitive);
    assert_eq!(metadata.predicted.total(), edge.cost);
    assert_eq!(metadata.predicted.time, edge.cost);
}

#[test]
fn extension_metadata_preserves_authoritative_edge_cost() {
    described(
        &AotvMove,
        Edge {
            to: BlockPos::new(8, 70, 0),
            kind: MoveKind::Aotv,
            cost: 123,
        },
        PrimitiveId(PrimitiveId::AOTV),
    );
    described(
        &EtherwarpMove,
        Edge {
            to: BlockPos::new(24, 80, -4),
            kind: MoveKind::Etherwarp,
            cost: 456,
        },
        PrimitiveId(PrimitiveId::ETHERWARP),
    );
}
