use vstd::prelude::*;

use crate::owner::Owner;

verus! {

/// Most factories a game can hold.
pub const MAX_FACTORIES: usize = 256;

/// Most troops in flight that a snapshot can report.
pub const MAX_TROOPS: usize = 65536;

/// Most orders that can wait in the queue of one tick.
pub const MAX_ORDERS: usize = 131072;

/// Most troops and orders that a simulated world can carry together.
pub const MAX_IN_FLIGHT: usize = 196608;

/// Largest garrison, production or troop size that a snapshot can report.
pub const MAX_UNITS: i64 = 1048576;

/// Largest travel time between two factories.
pub const MAX_DISTANCE: i64 = 1048576;

/// A production node of the graph.
///
/// `uncommitted` is the part of the garrison that the strategies of the
/// current tick have not yet promised to an order.
#[derive(Clone, Copy, Debug, PartialEq, Eq, Structural)]
pub struct Factory {
    pub id: usize,
    pub owner: Owner,
    pub garrison: i64,
    pub production: i64,
    pub uncommitted: i64,
}

/// A group of cyborgs on its way, or an order that will become one.
#[derive(Clone, Copy, Debug, PartialEq, Eq, Structural)]
pub struct Troop {
    pub owner: Owner,
    pub source: usize,
    pub destination: usize,
    pub size: i64,
    pub ticks: i64,
}

impl Factory {
    pub fn get_owner(&self) -> (r: Owner)
        ensures
            r == self.owner,
    {
        self.owner
    }
}

impl Troop {
    pub fn get_owner(&self) -> (r: Owner)
        ensures
            r == self.owner,
    {
        self.owner
    }

    /// The troop's size counted positive for the player and negative for the enemy.
    pub open spec fn signed_size(self) -> int {
        if self.owner == Owner::Player {
            self.size as int
        } else if self.owner == Owner::Enemy {
            -self.size
        } else {
            0
        }
    }
}

} // verus!
