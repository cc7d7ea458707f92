//! The six player factions, their starting allotments, and the spice
//! denominations used to pay them out.

use vstd::prelude::*;

verus! {

/// Handle of the Arrakeen location in the rule data.
pub const LOC_ARRAKEEN: u64 = 1;

/// Handle of the Carthag location in the rule data.
pub const LOC_CARTHAG: u64 = 2;

/// Handle of the Polar Sink location in the rule data.
pub const LOC_POLAR_SINK: u64 = 3;

/// Handle of the Sietch Tabr location in the rule data.
pub const LOC_SIETCH_TABR: u64 = 4;

/// Handle of the False Wall South location in the rule data.
pub const LOC_FALSE_WALL_SOUTH: u64 = 5;

/// Handle of the False Wall West location in the rule data.
pub const LOC_FALSE_WALL_WEST: u64 = 6;

/// Handle of the Tuek's Sietch location in the rule data.
pub const LOC_TUEKS_SIETCH: u64 = 7;

/// One of the six fixed player identities; each player holds a distinct one.
#[derive(Clone, Copy, Debug, PartialEq, Eq, Structural, Hash)]
pub enum Faction {
    Atreides,
    BeneGesserit,
    Emperor,
    Fremen,
    Harkonnen,
    SpacingGuild,
}

/// Starting troop count placed at game start.
pub open spec fn spec_initial_troops(f: Faction) -> u64 {
    match f {
        Faction::Atreides => 10,
        Faction::BeneGesserit => 1,
        Faction::Emperor => 0,
        Faction::Fremen => 10,
        Faction::Harkonnen => 10,
        Faction::SpacingGuild => 5,
    }
}

/// Locations where the starting troops may be placed; empty when the
/// faction starts entirely in reserve.
pub open spec fn spec_initial_locations(f: Faction) -> Seq<u64> {
    match f {
        Faction::Atreides => seq![LOC_ARRAKEEN],
        Faction::BeneGesserit => seq![LOC_POLAR_SINK],
        Faction::Emperor => Seq::empty(),
        Faction::Fremen => seq![LOC_SIETCH_TABR, LOC_FALSE_WALL_SOUTH, LOC_FALSE_WALL_WEST],
        Faction::Harkonnen => seq![LOC_CARTHAG],
        Faction::SpacingGuild => seq![LOC_TUEKS_SIETCH],
    }
}

/// Starting spice credited when the faction's placement is scheduled.
pub open spec fn spec_initial_spice(f: Faction) -> u64 {
    match f {
        Faction::Atreides => 10,
        Faction::BeneGesserit => 5,
        Faction::Emperor => 10,
        Faction::Fremen => 3,
        Faction::Harkonnen => 10,
        Faction::SpacingGuild => 5,
    }
}

impl Faction {
    /// The faction's starting troop count, allowed start locations, and
    /// starting spice.
    pub fn initial_values(&self) -> (r: (u64, Vec<u64>, u64))
        ensures
            r.0 == spec_initial_troops(*self),
            r.1@ == spec_initial_locations(*self),
            r.2 == spec_initial_spice(*self),
    {
        match self {
            Faction::Atreides => {
                let locations = vec![LOC_ARRAKEEN];
                proof {
                    assert(locations@ =~= spec_initial_locations(*self));
                }
                (10, locations, 10)
            },
            Faction::BeneGesserit => {
                let locations = vec![LOC_POLAR_SINK];
                proof {
                    assert(locations@ =~= spec_initial_locations(*self));
                }
                (1, locations, 5)
            },
            Faction::Emperor => {
                let locations = Vec::new();
                proof {
                    assert(locations@ =~= spec_initial_locations(*self));
                }
                (0, locations, 10)
            },
            Faction::Fremen => {
                let locations = vec![LOC_SIETCH_TABR, LOC_FALSE_WALL_SOUTH, LOC_FALSE_WALL_WEST];
                proof {
                    assert(locations@ =~= spec_initial_locations(*self));
                }
                (10, locations, 3)
            },
            Faction::Harkonnen => {
                let locations = vec![LOC_CARTHAG];
                proof {
                    assert(locations@ =~= spec_initial_locations(*self));
                }
                (10, locations, 10)
            },
            Faction::SpacingGuild => {
                let locations = vec![LOC_TUEKS_SIETCH];
                proof {
                    assert(locations@ =~= spec_initial_locations(*self));
                }
                (5, locations, 5)
            },
        }
    }
}

/// One leader of the rule data: a stable handle and the faction that owns
/// it.
#[derive(Clone, Copy, Debug, PartialEq, Eq, Structural)]
pub struct Leader {
    pub id: u64,
    pub faction: Faction,
}

/// Break a spice total into tokens, largest denominations first: tens,
/// fives, twos, then ones.
pub fn divide_spice(spice: u64) -> (r: (u64, u64, u64, u64))
    ensures
        r.0 == spice / 10,
        r.1 == (spice % 10) / 5,
        r.2 == ((spice % 10) % 5) / 2,
        r.3 == ((spice % 10) % 5) % 2,
        10 * r.0 + 5 * r.1 + 2 * r.2 + r.3 == spice,
{
    let tens = spice / 10;
    let rem: u64 = spice % 10;
    let fives = rem / 5;
    let rem: u64 = rem % 5;
    let twos = rem / 2;
    let ones = rem % 2;
    (tens, fives, twos, ones)
}

} // verus!
