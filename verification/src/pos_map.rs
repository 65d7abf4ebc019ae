//! A map from block positions, backed by a hash map over packed keys.
use std::collections::HashMap;

use vstd::prelude::*;

use crate::pos::BlockPos;
use crate::pos;

verus! {

broadcast use vstd::std_specs::hash::group_hash_axioms;

/// A map keyed by [`BlockPos`]; its view is the mathematical map.
#[derive(Debug)]
pub struct PosMap<V> {
    slots: HashMap<u128, V>,
}

impl<V> View for PosMap<V> {
    type V = Map<BlockPos, V>;

    closed spec fn view(&self) -> Map<BlockPos, V> {
        Map::new(
            |pos: BlockPos| self.slots@.contains_key(pos::slot(pos)),
            |pos: BlockPos| self.slots@[pos::slot(pos)],
        )
    }
}

impl<V> PosMap<V> {
    pub fn new() -> (map: PosMap<V>)
        ensures
            map@ == Map::<BlockPos, V>::empty(),
    {
        let map = PosMap { slots: HashMap::new() };
        assert(map@ =~= Map::<BlockPos, V>::empty());
        map
    }

    pub fn get(&self, pos: BlockPos) -> (value: Option<&V>)
        ensures
            match value {
                Some(v) => self@.contains_key(pos) && *v == self@[pos],
                None => !self@.contains_key(pos),
            },
    {
        let key: u128 = pos.key();
        self.slots.get(&key)
    }

    pub fn contains(&self, pos: BlockPos) -> (r: bool)
        ensures
            r == self@.contains_key(pos),
    {
        let key: u128 = pos.key();
        self.slots.contains_key(&key)
    }

    /// A copy with the same contents.
    pub fn duplicate(&self) -> (copy: PosMap<V>) where V: Copy
        ensures
            copy@ == self@,
    {
        let copy = PosMap { slots: self.slots.clone() };
        assert(copy@ =~= self@);
        copy
    }

    /// Sets the value at `pos`, replacing any earlier one.
    pub fn insert(&mut self, pos: BlockPos, value: V)
        ensures
            final(self)@ == old(self)@.insert(pos, value),
    {
        let key: u128 = pos.key();
        self.slots.insert(key, value);
        proof {
            pos::lemma_slots_are_distinct();
            assert(self@ =~= old(self)@.insert(pos, value));
        }
    }
}

} // verus!
