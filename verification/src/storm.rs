//! The shared storm marker: which board sector the storm currently
//! occupies.

use vstd::prelude::*;

verus! {

/// Number of sectors on the board; the storm position wraps at this bound.
pub const NUM_SECTORS: u64 = 18;

/// Where a storm card moves the storm: the card's value is added to the
/// sector, wrapping around the board.
pub open spec fn spec_next_sector(sector: u64, val: u64) -> u64 {
    ((sector + val) % (NUM_SECTORS as int)) as u64
}

/// The storm marker.  Created at game start; moved only by the storm
/// phase.
#[derive(Clone, Copy, Debug, PartialEq, Eq, Structural)]
pub struct Storm {
    pub sector: u64,
}

impl Storm {
    /// The marker always sits on a real sector.
    pub open spec fn wf(&self) -> bool {
        self.sector < NUM_SECTORS
    }

    /// A new storm marker on the first sector.
    pub fn new() -> (r: Storm)
        ensures
            r.wf(),
            r.sector == 0,
    {
        Storm { sector: 0 }
    }

    /// Move the storm by a storm card's value, wrapping around the board.
    /// Whatever the starting sector and the card value, the result is
    /// `(sector + val) % NUM_SECTORS`, and so again a real sector.
    pub fn move_storm(&mut self, val: u64)
        requires
            old(self).wf(),
        ensures
            final(self).sector == spec_next_sector(old(self).sector, val),
            final(self).wf(),
    {
        proof {
            vstd::arithmetic::div_mod::lemma_add_mod_noop(
                old(self).sector as int,
                val as int,
                NUM_SECTORS as int,
            );
            vstd::arithmetic::div_mod::lemma_small_mod(
                old(self).sector as nat,
                NUM_SECTORS as nat,
            );
        }
        self.sector = (self.sector + val % NUM_SECTORS) % NUM_SECTORS;
    }

    /// Place the storm on a sector drawn uniformly at random, as the first
    /// turn's storm phase demands.
    pub fn randomize(&mut self)
        ensures
            final(self).wf(),
    {
        self.sector = crate::rng::rand_below(NUM_SECTORS);
    }
}

} // verus!
