//! One entry of the player registry.

use vstd::prelude::*;

use crate::faction::{Faction, Leader};

verus! {

/// A player: faction identity, card hands, spice holdings, reserve troops,
/// and the leaders the faction owns.  Created once at game start for each
/// faction in play; mutated by phase logic; never destroyed mid-game.
#[derive(Debug)]
pub struct Player {
    /// The player's faction; unique per player.
    pub faction: Faction,
    /// Traitor cards dealt and kept, by handle.
    pub traitor_cards: Vec<u64>,
    /// Treachery cards held, by handle.
    pub treachery_cards: Vec<u64>,
    /// Aggregate spice total.
    pub total_spice: u64,
    /// Troops still in reserve, off the board.
    pub reserve_troops: u64,
    /// Leaders owned: the rule data's leaders filtered by faction.
    pub leaders: Vec<u64>,
    /// Whether this player's owned pieces have been made visible to them;
    /// a presentation flag read by the rendering collaborator.
    pub pieces_visible: bool,
    /// Whether this player's initial placement has been scheduled (and the
    /// starting spice credited); the guard that keeps the crediting
    /// idempotent.
    pub placement_scheduled: bool,
}

/// Each faction starts with this many troop tokens in total.
pub const STARTING_TROOPS: u64 = 20;

/// The leaders a faction owns, in the order the rule data lists them.
pub open spec fn spec_faction_leaders(leaders: Seq<Leader>, f: Faction) -> Seq<u64> {
    leaders.filter(|l: Leader| l.faction == f).map_values(|l: Leader| l.id)
}

impl Player {
    /// A fresh player of the given faction.  Starting spice is *not*
    /// credited here: it is credited exactly once, when the player's
    /// initial placement is scheduled.
    pub fn new(faction: Faction, leaders: &Vec<Leader>) -> (r: Player)
        ensures
            r.faction == faction,
            r.traitor_cards@ == Seq::<u64>::empty(),
            r.treachery_cards@ == Seq::<u64>::empty(),
            r.total_spice == 0,
            r.reserve_troops == STARTING_TROOPS,
            r.leaders@ == spec_faction_leaders(leaders@, faction),
            !r.pieces_visible,
            !r.placement_scheduled,
    {
        let mut owned: Vec<u64> = Vec::new();
        let mut i: usize = 0;
        while i < leaders.len()
            invariant
                i <= leaders@.len(),
                owned@ == spec_faction_leaders(leaders@.take(i as int), faction),
            decreases leaders@.len() - i,
        {
            let ghost prefix = leaders@.take(i as int);
            let l = leaders[i];
            if l.faction == faction {
                owned.push(l.id);
            }
            proof {
                reveal(Seq::filter);
                let pred = |x: Leader| x.faction == faction;
                assert(leaders@.take(i + 1) =~= prefix.push(l));
                assert(prefix.push(l).drop_last() =~= prefix);
                if pred(l) {
                    assert(prefix.push(l).filter(pred) =~= prefix.filter(pred).push(l));
                    assert(prefix.filter(pred).push(l).map_values(|x: Leader| x.id)
                        =~= spec_faction_leaders(prefix, faction).push(l.id));
                } else {
                    assert(prefix.push(l).filter(pred) =~= prefix.filter(pred));
                }
            }
            i = i + 1;
        }
        proof {
            assert(leaders@.take(leaders@.len() as int) =~= leaders@);
        }
        Player {
            faction,
            traitor_cards: Vec::new(),
            treachery_cards: Vec::new(),
            total_spice: 0,
            reserve_troops: STARTING_TROOPS,
            leaders: owned,
            pieces_visible: false,
            placement_scheduled: false,
        }
    }
}

} // verus!
