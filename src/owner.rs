use vstd::prelude::*;

verus! {

/// The side that holds a factory or sends a troop.
#[derive(Clone, Copy, Debug, PartialEq, Eq, Structural)]
pub enum Owner {
    Player,
    Enemy,
    Neutral,
}

impl Owner {
    /// +1 for the player, -1 for the enemy, 0 for the neutral side.
    pub open spec fn sign(self) -> int {
        match self {
            Owner::Player => 1,
            Owner::Enemy => -1,
            Owner::Neutral => 0,
        }
    }

    /// The owner that the game protocol writes as `code` (1, -1 or 0).
    pub open spec fn from_code_spec(code: i64) -> Option<Owner> {
        if code == 1 {
            Some(Owner::Player)
        } else if code == -1 {
            Some(Owner::Enemy)
        } else if code == 0 {
            Some(Owner::Neutral)
        } else {
            None
        }
    }

    pub fn from_code(code: i64) -> (r: Option<Owner>)
        ensures
            r == Owner::from_code_spec(code),
    {
        if code == 1 {
            Some(Owner::Player)
        } else if code == -1 {
            Some(Owner::Enemy)
        } else if code == 0 {
            Some(Owner::Neutral)
        } else {
            None
        }
    }

    pub fn code(&self) -> (r: i64)
        ensures
            r == self.sign(),
    {
        match self {
            Owner::Player => 1,
            Owner::Enemy => -1,
            Owner::Neutral => 0,
        }
    }

    pub fn is_player(&self) -> (r: bool)
        ensures
            r == (*self == Owner::Player),
    {
        matches!(self, Owner::Player)
    }

    pub fn is_enemy(&self) -> (r: bool)
        ensures
            r == (*self == Owner::Enemy),
    {
        matches!(self, Owner::Enemy)
    }

    pub fn is_neutral(&self) -> (r: bool)
        ensures
            r == (*self == Owner::Neutral),
    {
        matches!(self, Owner::Neutral)
    }
}

} // verus!
