//! Handles and tick-keyed maps shared by the simulation and the timeline.

use std::collections::HashMap;
use vstd::prelude::*;

verus! {

/// An opaque handle to an object of the simulation. Handles are handed out
/// in increasing order by whoever owns the simulation.
#[derive(Clone, Copy, Debug, PartialEq, Eq, Structural, PartialOrd, Ord, Hash)]
pub struct GameObjectId(pub u64);

/// The kind of character that a player controls.
#[derive(Clone, Copy, Debug, PartialEq, Eq, Structural)]
pub enum Character {
    Minkle,
}

/// A map keyed by tick.
pub type TimeMap<T> = HashMap<u64, T>;

/// A map keyed by the number of an object's handle.
pub type IdHashMap<V> = HashMap<u64, V>;

/// An empty map keyed by tick.
pub fn new_time_map<T>() -> (map: TimeMap<T>)
    ensures
        map@ == Map::<u64, T>::empty(),
{
    HashMap::new()
}

/// An empty map keyed by the number of an object's handle.
pub fn new_id_hashmap<T>() -> (map: IdHashMap<T>)
    ensures
        map@ == Map::<u64, T>::empty(),
{
    HashMap::new()
}

} // verus!
