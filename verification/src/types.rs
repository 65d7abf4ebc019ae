//! Values shared by every planner and follower.
use vstd::prelude::*;

use crate::pos::BlockPos;

verus! {

/// Path cost in tenths of a block. Walking one block costs 10.
pub type Cost = u32;

/// Movement used to reach a path node.
#[derive(Clone, Copy, PartialEq, Eq, Structural, Debug)]
pub enum MoveKind {
    Start,
    Walk,
    Jump,
    Fall,
    /// A running jump across a gap, landing `blocks` away horizontally.
    ///
    /// Unlike [`MoveKind::Jump`], which steps up onto an adjacent block, there
    /// is nothing under the middle of this move.
    Parkour { blocks: u8, rise: i8 },
    /// Climbing a ladder, vine or scaffolding, or stepping off one onto a
    /// ledge.
    Climb,
    /// Swimming through water, into it, or out of it onto a ledge.
    Swim,
    Aotv,
    Etherwarp,
}

#[derive(Clone, Copy, PartialEq, Eq, Structural, Debug)]
pub struct PathNode {
    pub pos: BlockPos,
    /// Movement used to reach this node.
    pub reached_by: MoveKind,
}

/// A block-level path produced by the local planner.
#[derive(Debug)]
pub struct Path {
    pub nodes: Vec<PathNode>,
    pub total_cost: Cost,
}

/// A list with the same items.
pub(crate) fn copied<T: Copy>(items: &Vec<T>) -> (copy: Vec<T>)
    ensures
        copy@ == items@,
{
    let mut copy: Vec<T> = Vec::new();
    let mut i: usize = 0;
    while i < items.len()
        invariant
            i <= items@.len(),
            copy@ == items@.take(i as int),
        decreases items@.len() - i,
    {
        copy.push(items[i]);
        i += 1;
        assert(items@.take(i as int) =~= items@.take(i - 1).push(items@[i - 1]));
    }
    assert(items@.take(i as int) =~= items@);
    copy
}

impl Clone for Path {
    fn clone(&self) -> (copy: Path)
        ensures
            copy.nodes@ == self.nodes@,
            copy.total_cost == self.total_cost,
    {
        Path { nodes: copied(&self.nodes), total_cost: self.total_cost }
    }
}

#[derive(Clone, Copy, PartialEq, Eq, Structural, Debug)]
pub enum PathError {
    /// No route reaches the goal.
    NoPath,
    /// The search hit its expansion limit.
    SearchBudgetExhausted,
    /// The follower stopped making progress.
    Stuck { at: BlockPos },
    /// The request was replaced or cancelled.
    Cancelled,
}

} // verus!
