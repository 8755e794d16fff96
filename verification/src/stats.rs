//! Combat stat blocks and combat units.
//!
//! A `Stats` value is either the base stats of a class or the personal
//! stat deltas of a unit; a unit's effective stat is always the sum of
//! the two. A `Unit` is one combat participant: a class-name key into
//! the registry, its personal deltas, the number of creatures left in
//! the stack, and the health already taken from the front creature.

use vstd::prelude::*;

verus! {

/// Mathematical image of a `Stats` value: unbounded integers and a
/// character sequence for the description.
pub struct StatsModel {
    pub attack: int,
    pub min_dmg: int,
    pub max_dmg: int,
    pub defense: int,
    pub health: int,
    pub luck: int,
    pub leadership: int,
    pub absorb: int,
    pub desc: Seq<char>,
}

/// A stat block: base stats of a class, or a unit's personal deltas.
pub struct Stats {
    pub attack: i32,
    pub min_dmg: i32,
    pub max_dmg: i32,
    pub defense: i32,
    pub health: i32,
    pub luck: i32,
    pub leadership: i32,
    pub absorb: i32,
    pub desc: String,
}

impl View for Stats {
    type V = StatsModel;

    open spec fn view(&self) -> StatsModel {
        StatsModel {
            attack: self.attack as int,
            min_dmg: self.min_dmg as int,
            max_dmg: self.max_dmg as int,
            defense: self.defense as int,
            health: self.health as int,
            luck: self.luck as int,
            leadership: self.leadership as int,
            absorb: self.absorb as int,
            desc: self.desc@,
        }
    }
}

impl Stats {
    /// A stat block with every number zero and an empty description.
    pub fn zeroed() -> (r: Stats)
        ensures
            r@ == (StatsModel {
                attack: 0,
                min_dmg: 0,
                max_dmg: 0,
                defense: 0,
                health: 0,
                luck: 0,
                leadership: 0,
                absorb: 0,
                desc: Seq::<char>::empty(),
            }),
    {
        Stats {
            attack: 0,
            min_dmg: 0,
            max_dmg: 0,
            defense: 0,
            health: 0,
            luck: 0,
            leadership: 0,
            absorb: 0,
            desc: String::new(),
        }
    }
}

/// Mathematical image of a `Unit`.
pub struct UnitModel {
    pub name: Seq<char>,
    pub stats: StatsModel,
    pub value: int,
    pub damage_left: int,
}

/// One combat participant: a class-name key, personal stat deltas, the
/// creatures left in the stack (`value`), and the health already lost
/// by the front creature (`damage_left`).
pub struct Unit {
    pub name: String,
    pub stats: Stats,
    pub value: i32,
    pub damage_left: i32,
}

impl View for Unit {
    type V = UnitModel;

    open spec fn view(&self) -> UnitModel {
        UnitModel {
            name: self.name@,
            stats: self.stats@,
            value: self.value as int,
            damage_left: self.damage_left as int,
        }
    }
}

} // verus!
