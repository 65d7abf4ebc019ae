use azalea_pathfinder::graph::{GraphEdge, Place};
use azalea_pathfinder::{route, TravelEdge, WorldGraph};

#[test]
fn warps_between_islands() {
    let graph = WorldGraph::skyblock_default();
    let hub = graph.place_index("hub").unwrap();
    let deep = graph.place_index("deep_caverns").unwrap();
    let dwarven = graph.place_index("dwarven_mines").unwrap();

    let steps = route(&graph, hub, deep).unwrap();
    assert_eq!(steps.len(), 1);
    assert!(matches!(steps[0].edge, TravelEdge::Warp { name: "deep" }));
    assert_eq!(steps[0].to_mode, Some("mining_2"));

    let steps = route(&graph, dwarven, deep).unwrap();
    assert_eq!(steps.len(), 1);
    assert!(matches!(steps[0].edge, TravelEdge::Warp { name: "deep" }));
}

#[test]
fn chooses_the_cheapest_route_and_ignores_invalid_edges() {
    let places = vec![
        Place {
            id: "a",
            mode: None,
            anchor: None,
        },
        Place {
            id: "b",
            mode: None,
            anchor: None,
        },
        Place {
            id: "c",
            mode: None,
            anchor: None,
        },
    ];
    let walk = |from, to, cost| GraphEdge {
        from,
        to,
        edge: TravelEdge::Walk,
        cost,
    };
    let graph = WorldGraph {
        places,
        edges: vec![
            walk(0, 2, 50),
            walk(0, 1, 10),
            walk(1, 2, 10),
            walk(99, 2, 1),
            walk(0, 99, 1),
        ],
    };

    let steps = route(&graph, 0, 2).unwrap();
    assert_eq!(
        steps.iter().map(|step| step.to_id).collect::<Vec<_>>(),
        ["b", "c"]
    );
}

#[test]
fn places_are_found_by_the_mode_of_their_server() {
    let graph = WorldGraph::skyblock_default();
    assert_eq!(graph.place_by_mode("hub"), graph.place_index("hub"));
    assert_eq!(
        graph.place_by_mode("mining_2"),
        graph.place_index("deep_caverns")
    );
    assert_eq!(graph.place_by_mode("nowhere"), None);
}

#[test]
fn graphs_are_cloned_with_all_they_hold() {
    let graph = WorldGraph::skyblock_default();
    assert_eq!(format!("{:?}", graph.clone()), format!("{graph:?}"));
}
