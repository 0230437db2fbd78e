//! The closed set of combat classes.

use vstd::prelude::*;

verus! {

/// Number of combat classes.
pub const CLASS_COUNT: usize = 13;

/// A combat class. The declaration order is the order in which classes are
/// reported.
#[derive(Clone, Copy, Debug, PartialEq, Eq, Structural, Hash)]
pub enum Class {
    Archer,
    Berserker,
    Brawler,
    Gunner,
    Lancer,
    Mystic,
    Ninja,
    Priest,
    Reaper,
    Slayer,
    Sorcerer,
    Valkyrie,
    Warrior,
}

impl Class {
    /// Position of the class in declaration order.
    pub open spec fn rank(self) -> int {
        match self {
            Class::Archer => 0,
            Class::Berserker => 1,
            Class::Brawler => 2,
            Class::Gunner => 3,
            Class::Lancer => 4,
            Class::Mystic => 5,
            Class::Ninja => 6,
            Class::Priest => 7,
            Class::Reaper => 8,
            Class::Slayer => 9,
            Class::Sorcerer => 10,
            Class::Valkyrie => 11,
            Class::Warrior => 12,
        }
    }

    /// The class at a position, for positions below `CLASS_COUNT`.
    pub open spec fn at(rank: int) -> Class {
        if rank == 0 {
            Class::Archer
        } else if rank == 1 {
            Class::Berserker
        } else if rank == 2 {
            Class::Brawler
        } else if rank == 3 {
            Class::Gunner
        } else if rank == 4 {
            Class::Lancer
        } else if rank == 5 {
            Class::Mystic
        } else if rank == 6 {
            Class::Ninja
        } else if rank == 7 {
            Class::Priest
        } else if rank == 8 {
            Class::Reaper
        } else if rank == 9 {
            Class::Slayer
        } else if rank == 10 {
            Class::Sorcerer
        } else if rank == 11 {
            Class::Valkyrie
        } else {
            Class::Warrior
        }
    }

    /// Whether the class is one of the two that heal the party.
    pub open spec fn healer(self) -> bool {
        self == Class::Mystic || self == Class::Priest
    }

    /// Position of the class in declaration order, always below `CLASS_COUNT`.
    pub fn index(self) -> (i: usize)
        ensures
            i == self.rank(),
            i < CLASS_COUNT,
            Class::at(i as int) == self,
    {
        match self {
            Class::Archer => 0,
            Class::Berserker => 1,
            Class::Brawler => 2,
            Class::Gunner => 3,
            Class::Lancer => 4,
            Class::Mystic => 5,
            Class::Ninja => 6,
            Class::Priest => 7,
            Class::Reaper => 8,
            Class::Slayer => 9,
            Class::Sorcerer => 10,
            Class::Valkyrie => 11,
            Class::Warrior => 12,
        }
    }

    /// The class at a position; `None` from `CLASS_COUNT` on.
    pub fn from_index(i: usize) -> (c: Option<Class>)
        ensures
            i < CLASS_COUNT ==> c == Some(Class::at(i as int)),
            i >= CLASS_COUNT ==> c is None,
            c matches Some(k) ==> k.rank() == i,
    {
        match i {
            0 => Some(Class::Archer),
            1 => Some(Class::Berserker),
            2 => Some(Class::Brawler),
            3 => Some(Class::Gunner),
            4 => Some(Class::Lancer),
            5 => Some(Class::Mystic),
            6 => Some(Class::Ninja),
            7 => Some(Class::Priest),
            8 => Some(Class::Reaper),
            9 => Some(Class::Slayer),
            10 => Some(Class::Sorcerer),
            11 => Some(Class::Valkyrie),
            12 => Some(Class::Warrior),
            _ => None,
        }
    }

    /// Whether the class is one of the two that heal the party.
    pub fn is_healer(self) -> (b: bool)
        ensures
            b == self.healer(),
    {
        match self {
            Class::Mystic => true,
            Class::Priest => true,
            _ => false,
        }
    }
}

/// Positions and classes correspond one to one.
pub proof fn lemma_rank_at(c: Class, i: int)
    ensures
        0 <= c.rank() < CLASS_COUNT,
        Class::at(c.rank()) == c,
        0 <= i < CLASS_COUNT ==> Class::at(i).rank() == i,
{
}

} // verus!
