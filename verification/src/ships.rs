//! The ship roster: the fixed, ordered supply of ships that every player
//! receives when a match begins.

use vstd::prelude::*;
use std::collections::VecDeque;

verus! {

/// A ship archetype.
#[derive(Debug, Clone, Copy, PartialEq, Eq, Structural, Hash)]
pub enum ShipType {
    Carrier,
    Cruiser,
    Frigate,
    Scout,
}

/// The roster, in draw order.
pub const SHIPS: [ShipType; 5] = [
    ShipType::Carrier,
    ShipType::Cruiser,
    ShipType::Frigate,
    ShipType::Frigate,
    ShipType::Scout,
];

/// The roster as a sequence: what a freshly seeded inventory holds, front first.
pub open spec fn roster() -> Seq<ShipType> {
    seq![
        ShipType::Carrier,
        ShipType::Cruiser,
        ShipType::Frigate,
        ShipType::Frigate,
        ShipType::Scout,
    ]
}

/// A new inventory queue: one copy of the whole roster, in roster order.
pub fn full_garage() -> (queue: VecDeque<ShipType>)
    ensures
        queue@ == roster(),
{
    let mut queue: VecDeque<ShipType> = VecDeque::new();
    let mut i: usize = 0;
    while i < SHIPS.len()
        invariant
            i <= SHIPS@.len(),
            SHIPS@ == roster(),
            queue@ == roster().take(i as int),
        decreases SHIPS@.len() - i,
    {
        queue.push_back(SHIPS[i]);
        i += 1;
    }
    queue
}

} // verus!
