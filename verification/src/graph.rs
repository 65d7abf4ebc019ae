//! Named places and the travel links between them.
use vstd::prelude::*;

use crate::pos::BlockPos;
use crate::text::same_text;
use crate::types::{copied, Cost};

verus! {

/// A named island or zone in the travel graph.
#[derive(Clone, Copy, Debug)]
pub struct Place {
    /// Stable identifier used to look up this place.
    pub id: &'static str,
    /// Locraw mode, or `None` for a zone.
    pub mode: Option<&'static str>,
    /// Walking target, or `None` for a warp-only place.
    pub anchor: Option<BlockPos>,
}

/// How to travel between two places.
#[derive(Clone, Copy, Debug)]
pub enum TravelEdge {
    /// Run `/warp <name>`.
    Warp { name: &'static str },
    /// Walk onto a teleport pad at this position.
    TeleportPad { pad: BlockPos },
    /// Walk to the destination place's anchor.
    Walk,
}

#[derive(Clone, Copy, Debug)]
pub struct GraphEdge {
    pub from: usize,
    pub to: usize,
    pub edge: TravelEdge,
    pub cost: Cost,
}

/// A graph of named places and travel links.
#[derive(Debug)]
pub struct WorldGraph {
    pub places: Vec<Place>,
    pub edges: Vec<GraphEdge>,
}

impl Clone for WorldGraph {
    fn clone(&self) -> (copy: WorldGraph)
        ensures
            copy.places@ == self.places@,
            copy.edges@ == self.edges@,
    {
        WorldGraph { places: copied(&self.places), edges: copied(&self.edges) }
    }
}

/// Priced so short walks beat warps.
pub const WARP_COST: Cost = 200;

/// A warp-only place with the given name and mode.
pub open spec fn is_warp_place(place: Place, id: Seq<char>, mode: Seq<char>) -> bool {
    place.id@ == id && place.anchor is None && (place.mode matches Some(m) && m@ == mode)
}

pub open spec fn is_warp(edge: GraphEdge, from: int, to: int, name: Seq<char>) -> bool {
    edge.from == from && edge.to == to && edge.cost == WARP_COST && (
    edge.edge matches TravelEdge::Warp { name: n } && n@ == name)
}

fn warp(from: usize, to: usize, name: &'static str) -> (edge: GraphEdge)
    ensures
        is_warp(edge, from as int, to as int, name@),
{
    GraphEdge { from, to, edge: TravelEdge::Warp { name }, cost: WARP_COST }
}

impl WorldGraph {
    /// Hub, Deep Caverns, and Dwarven Mines, connected by warps.
    pub fn skyblock_default() -> (graph: WorldGraph)
        ensures
            graph.places@.len() == 3,
            is_warp_place(graph.places@[0], "hub"@, "hub"@),
            is_warp_place(graph.places@[1], "deep_caverns"@, "mining_2"@),
            is_warp_place(graph.places@[2], "dwarven_mines"@, "mining_3"@),
            graph.edges@.len() == 6,
            is_warp(graph.edges@[0], 0, 1, "deep"@),
            is_warp(graph.edges@[1], 0, 2, "mines"@),
            is_warp(graph.edges@[2], 1, 0, "hub"@),
            is_warp(graph.edges@[3], 1, 2, "mines"@),
            is_warp(graph.edges@[4], 2, 0, "hub"@),
            is_warp(graph.edges@[5], 2, 1, "deep"@),
    {
        let mut places: Vec<Place> = Vec::new();
        places.push(Place { id: "hub", mode: Some("hub"), anchor: None });
        places.push(Place { id: "deep_caverns", mode: Some("mining_2"), anchor: None });
        places.push(Place { id: "dwarven_mines", mode: Some("mining_3"), anchor: None });
        let mut edges: Vec<GraphEdge> = Vec::new();
        edges.push(warp(0, 1, "deep"));
        edges.push(warp(0, 2, "mines"));
        edges.push(warp(1, 0, "hub"));
        edges.push(warp(1, 2, "mines"));
        edges.push(warp(2, 0, "hub"));
        edges.push(warp(2, 1, "deep"));
        WorldGraph { places, edges }
    }

    /// The index of the first place called `id`.
    pub fn place_index(&self, id: &str) -> (index: Option<usize>)
        ensures
            match index {
                Some(i) => {
                    &&& i < self.places@.len()
                    &&& self.places@[i as int].id@ == id@
                    &&& forall|j: int| 0 <= j < i ==> (#[trigger] self.places@[j]).id@ != id@
                },
                None => forall|j: int|
                    0 <= j < self.places@.len() ==> (#[trigger] self.places@[j]).id@ != id@,
            },
    {
        let mut i: usize = 0;
        while i < self.places.len()
            invariant
                i <= self.places@.len(),
                forall|j: int| 0 <= j < i ==> (#[trigger] self.places@[j]).id@ != id@,
            decreases self.places@.len() - i,
        {
            if same_text(self.places[i].id, id) {
                return Some(i);
            }
            i += 1;
        }
        None
    }

    /// The index of the first place with locraw mode `mode`.
    pub fn place_by_mode(&self, mode: &str) -> (index: Option<usize>)
        ensures
            match index {
                Some(i) => {
                    &&& i < self.places@.len()
                    &&& has_mode(self.places@[i as int], mode@)
                    &&& forall|j: int| 0 <= j < i ==> !has_mode(#[trigger] self.places@[j], mode@)
                },
                None => forall|j: int|
                    0 <= j < self.places@.len() ==> !has_mode(#[trigger] self.places@[j], mode@),
            },
    {
        let mut i: usize = 0;
        while i < self.places.len()
            invariant
                i <= self.places@.len(),
                forall|j: int| 0 <= j < i ==> !has_mode(#[trigger] self.places@[j], mode@),
            decreases self.places@.len() - i,
        {
            let matches_mode: bool = match self.places[i].mode {
                Some(m) => same_text(m, mode),
                None => false,
            };
            if matches_mode {
                return Some(i);
            }
            i += 1;
        }
        None
    }
}

pub open spec fn has_mode(place: Place, mode: Seq<char>) -> bool {
    match place.mode {
        Some(m) => m@ == mode,
        None => false,
    }
}

} // verus!
