//! The top-level phase machine, the turn-order resolver, and the shared
//! game state they drive.
//!
//! The phase machine advances only when the action stack has drained; each
//! advance performs one sub-phase's work: it mutates shared state for
//! deterministic steps and pushes blocking actions for player decisions.
//! Sub-phase transitions are strictly forward, except where a sub-phase
//! conditionally skips ahead.

use vstd::multiset::Multiset;
use vstd::prelude::*;

use crate::camera::Transform;
use crate::deck::Deck;
use crate::faction::{Faction, Leader};
use crate::player::Player;
use crate::stack::{Action, ActionStack};
use crate::storm::Storm;

verus! {

/// Inner steps of the Setup phase, in order.
#[derive(Clone, Copy, Debug, PartialEq, Eq, Structural)]
pub enum SetupSubPhase {
    ChooseFactions,
    Prediction,
    AtStart,
    DealTraitors,
    PickTraitors,
    DealTreachery,
}

/// Inner steps of the Storm phase, in order.
#[derive(Clone, Copy, Debug, PartialEq, Eq, Structural)]
pub enum StormSubPhase {
    Reveal,
    WeatherControl,
    FamilyAtomics,
    MoveStorm,
}

/// The outer game phase; phases with internal structure carry their
/// sub-phase.
#[derive(Clone, Copy, Debug, PartialEq, Eq, Structural)]
pub enum Phase {
    Setup(SetupSubPhase),
    Storm(StormSubPhase),
    SpiceBlow,
    Nexus,
    Bidding,
    Revival,
    Movement,
    Battle,
    Collection,
    Control,
    EndGame,
}

/// The card decks and the shared spice-token bank.
#[derive(Debug)]
pub struct ResourcePools {
    pub treachery: Deck,
    pub traitor: Deck,
    pub spice: Deck,
    pub storm: Deck,
    pub spice_bank: u64,
}

/// All shared state of one game session: the registry of players, the
/// shuffled play order, the resource pools, the storm marker, and the
/// phase machine's own position.
#[derive(Debug)]
pub struct GameState {
    /// Current phase and sub-phase.
    pub phase: Phase,
    /// Completed turn count; zero during setup and the first storm.
    pub turn: u64,
    /// Position in `play_order` of the player whose turn it is.
    pub active_player: usize,
    /// The player registry, one entry per faction in play.
    pub players: Vec<Player>,
    /// Turn rotation: a permutation of the player indices, fixed by a
    /// shuffle at game start.
    pub play_order: Vec<usize>,
    /// Whether the Setup prediction requests have already been pushed;
    /// guards against pushing duplicates when the sub-phase is re-entered.
    pub prediction_requested: bool,
    /// Whether the traitor-pick request has already been pushed.
    pub traitors_requested: bool,
    /// The storm marker.
    pub storm: Storm,
    /// Decks, discard piles, and the spice bank.
    pub pools: ResourcePools,
}

impl GameState {
    /// Well-formedness: at least one player; the play order is a
    /// permutation of the player indices; the active position is in range;
    /// the storm marker sits on a real sector; factions are unique; and
    /// every player still owed their starting spice has room for it.
    pub open spec fn wf(&self) -> bool {
        &&& self.players@.len() > 0
        &&& self.play_order@.len() == self.players@.len()
        &&& forall|k: int|
            0 <= k < self.play_order@.len() ==> #[trigger] self.play_order@[k]
                < self.players@.len()
        &&& self.play_order@.no_duplicates()
        &&& self.active_player < self.play_order@.len()
        &&& self.storm.wf()
        &&& forall|i: int, j: int|
            0 <= i < self.players@.len() && 0 <= j < self.players@.len() && i != j
                ==> #[trigger] self.players@[i].faction != #[trigger] self.players@[j].faction
        &&& forall|i: int|
            0 <= i < self.players@.len() && !(#[trigger] self.players@[i]).placement_scheduled
                ==> self.players@[i].total_spice + crate::faction::spec_initial_spice(
                self.players@[i].faction,
            ) <= u64::MAX
    }

    /// Create the state for a fresh game session: one player per faction
    /// in play, a shuffled play order, shuffled decks, the storm marker on
    /// its starting sector, and the phase machine at the first setup step.
    pub fn new(
        factions_in_play: Vec<Faction>,
        leaders: Vec<Leader>,
        treachery_cards: Vec<u64>,
        spice_cards: Vec<u64>,
        storm_cards: Vec<u64>,
    ) -> (r: GameState)
        requires
            factions_in_play@.len() > 0,
            forall|i: int, j: int|
                0 <= i < factions_in_play@.len() && 0 <= j < factions_in_play@.len() && i != j
                    ==> #[trigger] factions_in_play@[i] != #[trigger] factions_in_play@[j],
        ensures
            r.wf(),
            r.phase == Phase::Setup(SetupSubPhase::ChooseFactions),
            r.turn == 0,
            r.active_player == 0,
            !r.prediction_requested,
            !r.traitors_requested,
            r.storm.sector == 0,
            r.players@.len() == factions_in_play@.len(),
            forall|i: int|
                0 <= i < r.players@.len() ==> {
                    let p = #[trigger] r.players@[i];
                    &&& p.faction == factions_in_play@[i]
                    &&& p.total_spice == 0
                    &&& !p.placement_scheduled
                    &&& !p.pieces_visible
                    &&& p.traitor_cards@ == Seq::<u64>::empty()
                    &&& p.treachery_cards@ == Seq::<u64>::empty()
                    &&& p.reserve_troops == crate::player::STARTING_TROOPS
                    &&& p.leaders@ == crate::player::spec_faction_leaders(
                        leaders@,
                        factions_in_play@[i],
                    )
                },
            r.pools.treachery.draw_pile().to_multiset() == treachery_cards@.to_multiset(),
            r.pools.treachery.discard_pile() == Seq::<u64>::empty(),
            r.pools.traitor.draw_pile().to_multiset() == leaders@.map_values(
                |l: Leader| l.id,
            ).to_multiset(),
            r.pools.traitor.discard_pile() == Seq::<u64>::empty(),
            r.pools.traitor.draw_pile().len() == leaders@.len(),
            r.pools.spice.draw_pile().to_multiset() == spice_cards@.to_multiset(),
            r.pools.storm.draw_pile().to_multiset() == storm_cards@.to_multiset(),
            r.pools.spice_bank == 0,
    {
        let n = factions_in_play.len();
        let mut players: Vec<Player> = Vec::new();
        let mut i: usize = 0;
        while i < n
            invariant
                i <= n,
                n == factions_in_play@.len(),
                players@.len() == i,
                forall|j: int|
                    0 <= j < i ==> {
                        let p = #[trigger] players@[j];
                        &&& p.faction == factions_in_play@[j]
                        &&& p.total_spice == 0
                        &&& !p.placement_scheduled
                        &&& !p.pieces_visible
                        &&& p.traitor_cards@ == Seq::<u64>::empty()
                        &&& p.treachery_cards@ == Seq::<u64>::empty()
                        &&& p.reserve_troops == crate::player::STARTING_TROOPS
                        &&& p.leaders@ == crate::player::spec_faction_leaders(
                            leaders@,
                            factions_in_play@[j],
                        )
                    },
            decreases n - i,
        {
            let p = Player::new(factions_in_play[i], &leaders);
            players.push(p);
            i = i + 1;
        }

        let mut play_order: Vec<usize> = Vec::new();
        let mut k: usize = 0;
        while k < n
            invariant
                k <= n,
                play_order@.len() == k,
                forall|j: int| 0 <= j < k ==> #[trigger] play_order@[j] == j,
            decreases n - k,
        {
            play_order.push(k);
            k = k + 1;
        }
        let ghost identity = play_order@;
        crate::rng::shuffle(&mut play_order);
        proof {
            lemma_shuffled_identity_is_permutation(identity, play_order@, n as int);
        }

        let mut traitor_ids: Vec<u64> = Vec::new();
        let mut t: usize = 0;
        while t < leaders.len()
            invariant
                t <= leaders@.len(),
                traitor_ids@ == leaders@.take(t as int).map_values(|l: Leader| l.id),
            decreases leaders@.len() - t,
        {
            let ghost prefix = leaders@.take(t as int);
            traitor_ids.push(leaders[t].id);
            proof {
                assert(leaders@.take(t + 1) =~= prefix.push(leaders@[t as int]));
                assert(prefix.push(leaders@[t as int]).map_values(|l: Leader| l.id)
                    =~= prefix.map_values(|l: Leader| l.id).push(leaders@[t as int].id));
            }
            t = t + 1;
        }
        proof {
            assert(leaders@.take(leaders@.len() as int) =~= leaders@);
        }
        let ghost traitor_seq = traitor_ids@;
        let traitor = Deck::new(traitor_ids);
        proof {
            traitor_seq.to_multiset_ensures();
            leaders@.map_values(|l: Leader| l.id).to_multiset_ensures();
        }

        GameState {
            phase: Phase::Setup(SetupSubPhase::ChooseFactions),
            turn: 0,
            active_player: 0,
            players,
            play_order,
            prediction_requested: false,
            traitors_requested: false,
            storm: Storm::new(),
            pools: ResourcePools {
                treachery: Deck::new(treachery_cards),
                traitor,
                spice: Deck::new(spice_cards),
                storm: Deck::new(storm_cards),
                spice_bank: 0,
            },
        }
    }
}

/// Whether a faction gets the shared special-case turn-order treatment at
/// initial placement.
pub open spec fn is_special(f: Faction) -> bool {
    f == Faction::BeneGesserit || f == Faction::Fremen
}

/// Position in the play order of the first BeneGesserit or Fremen player,
/// if any.
pub open spec fn spec_first_special(players: Seq<Player>, order: Seq<usize>) -> Option<int>
    decreases order.len(),
{
    if order.len() == 0 {
        None
    } else if is_special(players[order[0] as int].faction) {
        Some(0)
    } else {
        match spec_first_special(players, order.drop_first()) {
            None => None,
            Some(k) => Some(k + 1),
        }
    }
}

/// Index of the first player of the given faction, if any.
pub open spec fn spec_find_faction(players: Seq<Player>, f: Faction) -> Option<int>
    decreases players.len(),
{
    if players.len() == 0 {
        None
    } else if players[0].faction == f {
        Some(0)
    } else {
        match spec_find_faction(players.drop_first(), f) {
            None => None,
            Some(k) => Some(k + 1),
        }
    }
}

/// The scan for the first special player finds exactly the position with a
/// special faction before which there is none.
proof fn lemma_first_special_unique(players: Seq<Player>, order: Seq<usize>, k: int)
    requires
        0 <= k < order.len(),
        is_special(players[order[k] as int].faction),
        forall|j: int| 0 <= j < k ==> !is_special(players[#[trigger] order[j] as int].faction),
    ensures
        spec_first_special(players, order) == Some(k),
    decreases order.len(),
{
    if k > 0 {
        lemma_first_special_unique(players, order.drop_first(), k - 1);
    }
}

/// The scan for a faction finds exactly the first index holding it.
proof fn lemma_find_faction_unique(players: Seq<Player>, f: Faction, k: int)
    requires
        0 <= k < players.len(),
        players[k].faction == f,
        forall|j: int| 0 <= j < k ==> (#[trigger] players[j]).faction != f,
    ensures
        spec_find_faction(players, f) == Some(k),
    decreases players.len(),
{
    if k > 0 {
        lemma_find_faction_unique(players.drop_first(), f, k - 1);
    }
}

/// When no player holds the faction, the scan finds nothing.
proof fn lemma_find_faction_none(players: Seq<Player>, f: Faction)
    requires
        forall|j: int| 0 <= j < players.len() ==> (#[trigger] players[j]).faction != f,
    ensures
        spec_find_faction(players, f) is None,
    decreases players.len(),
{
    if players.len() > 0 {
        lemma_find_faction_none(players.drop_first(), f);
    }
}

/// The player after being scheduled: starting spice credited, the guard
/// flag set, everything else untouched.
pub open spec fn spec_credit(p: Player) -> Player {
    Player {
        faction: p.faction,
        traitor_cards: p.traitor_cards,
        treachery_cards: p.treachery_cards,
        total_spice: (p.total_spice + crate::faction::spec_initial_spice(p.faction)) as u64,
        reserve_troops: p.reserve_troops,
        leaders: p.leaders,
        pieces_visible: p.pieces_visible,
        placement_scheduled: true,
    }
}

/// Scheduling one player: a no-op when already scheduled, otherwise the
/// credit is applied exactly once.
pub open spec fn spec_schedule_one(players: Seq<Player>, idx: int) -> Seq<Player> {
    if players[idx].placement_scheduled {
        players
    } else {
        players.update(idx, spec_credit(players[idx]))
    }
}

/// Scheduling a list of players in order.
pub open spec fn spec_schedule_all(players: Seq<Player>, ts: Seq<usize>) -> Seq<Player>
    decreases ts.len(),
{
    if ts.len() == 0 {
        players
    } else {
        spec_schedule_all(spec_schedule_one(players, ts[0] as int), ts.drop_first())
    }
}

/// The players whose placement actions actually get pushed: the targets
/// not yet scheduled when their turn in the list comes.
pub open spec fn spec_pushed_targets(players: Seq<Player>, ts: Seq<usize>) -> Seq<usize>
    decreases ts.len(),
{
    if ts.len() == 0 {
        Seq::empty()
    } else {
        let head: Seq<usize> = if players[ts[0] as int].placement_scheduled {
            Seq::empty()
        } else {
            seq![ts[0]]
        };
        head + spec_pushed_targets(spec_schedule_one(players, ts[0] as int), ts.drop_first())
    }
}

/// The players the turn-order resolver schedules for the active player's
/// turn, in push order (the last pushed resolves first):
/// - an ordinary faction places on its own turn;
/// - when the active player is BeneGesserit or Fremen and Fremen comes
///   first in the play order, each of the two places on its own turn;
/// - when BeneGesserit comes first, the Fremen player's placement is
///   pushed and then BeneGesserit's on top of it, both on the same turn.
pub open spec fn spec_targets(players: Seq<Player>, order: Seq<usize>, active: int) -> Seq<usize> {
    let a_idx = order[active];
    if !is_special(players[a_idx as int].faction) {
        seq![a_idx]
    } else {
        match spec_first_special(players, order) {
            None => seq![a_idx],
            Some(k) => {
                if players[order[k] as int].faction == Faction::Fremen {
                    seq![a_idx]
                } else {
                    match spec_find_faction(players, Faction::Fremen) {
                        None => seq![order[k]],
                        Some(fi) => seq![fi as usize, order[k]],
                    }
                }
            },
        }
    }
}

/// How one player's record may change while placements are being
/// scheduled: the faction is fixed, the scheduled flag only ever rises,
/// and the starting spice arrives exactly on the flag's rising edge.
pub open spec fn spec_credit_step_at(p: Player, q: Player) -> bool {
    &&& q.faction == p.faction
    &&& (p.placement_scheduled ==> q.placement_scheduled)
    &&& q.total_spice == p.total_spice + (if q.placement_scheduled && !p.placement_scheduled {
        crate::faction::spec_initial_spice(p.faction) as int
    } else {
        0
    })
}

/// The crediting relation over the whole registry.
pub open spec fn spec_credit_step(a: Seq<Player>, b: Seq<Player>) -> bool {
    &&& b.len() == a.len()
    &&& forall|i: int| 0 <= i < a.len() ==> spec_credit_step_at(#[trigger] a[i], #[trigger] b[i])
}

/// Crediting steps compose: however many scheduling steps run, each
/// player's spice can only ever rise by one starting allotment, on the
/// single rising edge of their scheduled flag.
pub proof fn lemma_crediting_composes(a: Seq<Player>, b: Seq<Player>, c: Seq<Player>)
    requires
        spec_credit_step(a, b),
        spec_credit_step(b, c),
    ensures
        spec_credit_step(a, c),
{
    assert forall|i: int| 0 <= i < a.len() implies spec_credit_step_at(
        #[trigger] a[i],
        #[trigger] c[i],
    ) by {
        assert(spec_credit_step_at(a[i], b[i]));
        assert(spec_credit_step_at(b[i], c[i]));
    }
}

/// Idempotent crediting: across an entire placement sub-phase that starts
/// with every player unscheduled and ends with every player scheduled,
/// each player's spice has increased by exactly their faction's starting
/// spice, exactly once.
pub proof fn lemma_crediting_once(a: Seq<Player>, z: Seq<Player>)
    requires
        spec_credit_step(a, z),
        forall|i: int| 0 <= i < a.len() ==> !(#[trigger] a[i]).placement_scheduled,
        forall|i: int| 0 <= i < z.len() ==> (#[trigger] z[i]).placement_scheduled,
    ensures
        forall|i: int|
            0 <= i < a.len() ==> (#[trigger] z[i]).total_spice == a[i].total_spice
                + crate::faction::spec_initial_spice(a[i].faction),
{
}

/// One scheduling step is a crediting step.
proof fn lemma_schedule_one_credit_step(players: Seq<Player>, idx: int)
    requires
        0 <= idx < players.len(),
        !players[idx].placement_scheduled ==> players[idx].total_spice
            + crate::faction::spec_initial_spice(players[idx].faction) <= u64::MAX,
    ensures
        spec_credit_step(players, spec_schedule_one(players, idx)),
{
}

/// A rules-engine failure: a data invariant was violated.  Fatal for the
/// tick that raised it; the state is left exactly as it was.
#[derive(Clone, Copy, Debug, PartialEq, Eq, Structural)]
pub enum EngineError {
    /// A deal was attempted that the deck cannot cover.
    DeckExhausted,
}

/// The cards of one kind held in hand across the whole registry.
pub open spec fn spec_hands(players: Seq<Player>, hand: spec_fn(Player) -> Seq<u64>) -> Multiset<
    u64,
>
    decreases players.len(),
{
    if players.len() == 0 {
        Multiset::empty()
    } else {
        hand(players[0]).to_multiset().add(spec_hands(players.drop_first(), hand))
    }
}

/// Every traitor card in the game: in the deck, its discard pile, or a
/// player's hand.
pub open spec fn spec_traitor_total(s: GameState) -> Multiset<u64> {
    s.pools.traitor.total().add(spec_hands(s.players@, |p: Player| p.traitor_cards@))
}

/// Every treachery card in the game.
pub open spec fn spec_treachery_total(s: GameState) -> Multiset<u64> {
    s.pools.treachery.total().add(spec_hands(s.players@, |p: Player| p.treachery_cards@))
}

/// The four traitor cards that the round-robin deal hands to the player at
/// position `k` of the play order, drawn from the end of `deck`.
pub open spec fn spec_dealt_traitors(deck: Seq<u64>, n: int, k: int) -> Seq<u64> {
    Seq::new(4, |r: int| deck[deck.len() - 1 - (r * n + k)])
}

/// The treachery cards dealt to the player at position `k` of the play
/// order: one for everyone, and a second one for the Harkonnen player.
pub open spec fn spec_dealt_treachery(deck: Seq<u64>, n: int, k: int, is_harkonnen: bool) -> Seq<
    u64,
> {
    if is_harkonnen {
        seq![deck[deck.len() - 1 - k], deck[deck.len() - 1 - n]]
    } else {
        seq![deck[deck.len() - 1 - k]]
    }
}

/// Giving one player one more card moves exactly that card into the hands'
/// multiset.
proof fn lemma_hands_update_push(
    players: Seq<Player>,
    hand: spec_fn(Player) -> Seq<u64>,
    j: int,
    p2: Player,
    c: u64,
)
    requires
        0 <= j < players.len(),
        hand(p2) == hand(players[j]).push(c),
    ensures
        spec_hands(players.update(j, p2), hand) == spec_hands(players, hand).insert(c),
    decreases players.len(),
{
    broadcast use vstd::multiset::group_multiset_axioms;

    let updated = players.update(j, p2);
    if j == 0 {
        assert(updated.drop_first() =~= players.drop_first());
        hand(players[0]).to_multiset_ensures();
        vstd::seq_lib::to_multiset_build(hand(players[0]), c);
        assert(spec_hands(updated, hand) =~= spec_hands(players, hand).insert(c));
    } else {
        assert(updated.drop_first() =~= players.drop_first().update(j - 1, p2));
        assert(updated[0] == players[0]);
        lemma_hands_update_push(players.drop_first(), hand, j - 1, p2, c);
        assert(spec_hands(updated, hand) =~= spec_hands(players, hand).insert(c));
    }
}

/// An update that leaves a player's hand alone leaves the hands' multiset
/// alone.
proof fn lemma_hands_update_same(
    players: Seq<Player>,
    hand: spec_fn(Player) -> Seq<u64>,
    j: int,
    p2: Player,
)
    requires
        0 <= j < players.len(),
        hand(p2) == hand(players[j]),
    ensures
        spec_hands(players.update(j, p2), hand) == spec_hands(players, hand),
    decreases players.len(),
{
    let updated = players.update(j, p2);
    if j == 0 {
        assert(updated.drop_first() =~= players.drop_first());
        assert(spec_hands(updated, hand) =~= spec_hands(players, hand));
    } else {
        assert(updated.drop_first() =~= players.drop_first().update(j - 1, p2));
        assert(updated[0] == players[0]);
        lemma_hands_update_same(players.drop_first(), hand, j - 1, p2);
        assert(spec_hands(updated, hand) =~= spec_hands(players, hand));
    }
}

/// `q` is `p` with exactly the card `c` added to the traitor hand.
pub open spec fn spec_deals_traitor(p: Player, q: Player, c: u64) -> bool {
    &&& q.traitor_cards@ == p.traitor_cards@.push(c)
    &&& q.faction == p.faction
    &&& q.treachery_cards == p.treachery_cards
    &&& q.total_spice == p.total_spice
    &&& q.reserve_troops == p.reserve_troops
    &&& q.leaders == p.leaders
    &&& q.pieces_visible == p.pieces_visible
    &&& q.placement_scheduled == p.placement_scheduled
}

/// `q` is `p` with exactly the card `c` added to the treachery hand.
pub open spec fn spec_deals_treachery(p: Player, q: Player, c: u64) -> bool {
    &&& q.treachery_cards@ == p.treachery_cards@.push(c)
    &&& q.faction == p.faction
    &&& q.traitor_cards == p.traitor_cards
    &&& q.total_spice == p.total_spice
    &&& q.reserve_troops == p.reserve_troops
    &&& q.leaders == p.leaders
    &&& q.pieces_visible == p.pieces_visible
    &&& q.placement_scheduled == p.placement_scheduled
}

/// `q` differs from `p` at most in its traitor hand, which may only have
/// grown.
pub open spec fn spec_same_except_traitor_hand(p: Player, q: Player) -> bool {
    &&& q.faction == p.faction
    &&& q.treachery_cards == p.treachery_cards
    &&& q.total_spice == p.total_spice
    &&& q.reserve_troops == p.reserve_troops
    &&& q.leaders == p.leaders
    &&& q.pieces_visible == p.pieces_visible
    &&& q.placement_scheduled == p.placement_scheduled
}

/// `q` differs from `p` at most in its treachery hand.
pub open spec fn spec_same_except_treachery_hand(p: Player, q: Player) -> bool {
    &&& q.faction == p.faction
    &&& q.traitor_cards == p.traitor_cards
    &&& q.total_spice == p.total_spice
    &&& q.reserve_troops == p.reserve_troops
    &&& q.leaders == p.leaders
    &&& q.pieces_visible == p.pieces_visible
    &&& q.placement_scheduled == p.placement_scheduled
}

/// Scheduling a single-target list is one scheduling step, pushing the one
/// action exactly when the target was unscheduled.
proof fn lemma_single_target(p0: Seq<Player>, t: usize, ts: Seq<usize>)
    requires
        ts == seq![t],
        0 <= t < p0.len(),
    ensures
        spec_schedule_all(p0, ts) == spec_schedule_one(p0, t as int),
        spec_pushed_targets(p0, ts) == (if p0[t as int].placement_scheduled {
            Seq::<usize>::empty()
        } else {
            seq![t]
        }),
{
    let mid = spec_schedule_one(p0, t as int);
    assert(ts.drop_first() =~= Seq::<usize>::empty());
    assert(spec_schedule_all(mid, ts.drop_first()) == mid);
    assert(spec_pushed_targets(mid, ts.drop_first()) =~= Seq::<usize>::empty());
    if p0[t as int].placement_scheduled {
        assert(Seq::<usize>::empty() + Seq::<usize>::empty() =~= Seq::<usize>::empty());
    } else {
        assert(seq![t] + Seq::<usize>::empty() =~= seq![t]);
    }
}

/// Scheduling a two-target list is two scheduling steps, pushing each
/// action exactly when its target was unscheduled at its turn.
proof fn lemma_double_target(p0: Seq<Player>, t1: usize, t2: usize, ts: Seq<usize>)
    requires
        ts == seq![t1, t2],
        0 <= t1 < p0.len(),
        0 <= t2 < p0.len(),
    ensures
        spec_schedule_all(p0, ts) == spec_schedule_one(
            spec_schedule_one(p0, t1 as int),
            t2 as int,
        ),
        spec_pushed_targets(p0, ts) == (if p0[t1 as int].placement_scheduled {
            Seq::<usize>::empty()
        } else {
            seq![t1]
        }) + (if spec_schedule_one(p0, t1 as int)[t2 as int].placement_scheduled {
            Seq::<usize>::empty()
        } else {
            seq![t2]
        }),
{
    let mid = spec_schedule_one(p0, t1 as int);
    assert(ts.drop_first() =~= seq![t2]);
    lemma_single_target(mid, t2, ts.drop_first());
}

/// Schedule one player's initial placement: push the placement action and
/// credit the starting spice, unless the player was already scheduled, in
/// which case nothing happens at all.
fn schedule_one(players: &mut Vec<Player>, idx: usize, stack: &mut ActionStack)
    requires
        idx < old(players)@.len(),
        !old(players)@[idx as int].placement_scheduled ==> old(players)@[idx as int].total_spice
            + crate::faction::spec_initial_spice(old(players)@[idx as int].faction) <= u64::MAX,
    ensures
        final(players)@ == spec_schedule_one(old(players)@, idx as int),
        old(players)@[idx as int].placement_scheduled ==> final(stack)@ == old(stack)@,
        !old(players)@[idx as int].placement_scheduled ==> {
            &&& final(stack)@.len() == old(stack)@.len() + 1
            &&& final(stack)@.drop_last() == old(stack)@
            &&& (final(stack)@.last() matches Action::PlaceFreeTroops { player, num, locations }
                && player == idx && num == crate::faction::spec_initial_troops(
                old(players)@[idx as int].faction,
            ) && locations@ == crate::faction::spec_initial_locations(
                old(players)@[idx as int].faction,
            ))
        },
{
    if !players[idx].placement_scheduled {
        let faction = players[idx].faction;
        let (num, locations, spice) = faction.initial_values();
        stack.push(Action::PlaceFreeTroops { player: idx, num, locations });
        let p = &mut players[idx];
        p.total_spice = p.total_spice + spice;
        p.placement_scheduled = true;
        proof {
            assert(stack@.drop_last() =~= old(stack)@);
        }
    }
}

/// Resolve initial troop placement for the active player, with the
/// faction-special turn-order rules, scheduling each affected player at
/// most once and crediting their starting spice exactly when scheduled.
pub fn resolve_placement(state: &mut GameState, stack: &mut ActionStack)
    requires
        old(state).wf(),
    ensures
        final(state).wf(),
        final(state).players@ == spec_schedule_all(
            old(state).players@,
            spec_targets(
                old(state).players@,
                old(state).play_order@,
                old(state).active_player as int,
            ),
        ),
        spec_credit_step(old(state).players@, final(state).players@),
        ({
            let pushed = spec_pushed_targets(
                old(state).players@,
                spec_targets(
                    old(state).players@,
                    old(state).play_order@,
                    old(state).active_player as int,
                ),
            );
            &&& final(stack)@.len() == old(stack)@.len() + pushed.len()
            &&& final(stack)@.take(old(stack)@.len() as int) == old(stack)@
            &&& forall|j: int|
                0 <= j < pushed.len() ==> (#[trigger] final(stack)@[old(stack)@.len() + j] matches
                Action::PlaceFreeTroops { player, num, locations } && player == pushed[j] && num
                    == crate::faction::spec_initial_troops(
                    old(state).players@[pushed[j] as int].faction,
                ) && locations@ == crate::faction::spec_initial_locations(
                    old(state).players@[pushed[j] as int].faction,
                ))
        }),
        final(state).phase == old(state).phase,
        final(state).turn == old(state).turn,
        final(state).active_player == old(state).active_player,
        final(state).play_order == old(state).play_order,
        final(state).prediction_requested == old(state).prediction_requested,
        final(state).traitors_requested == old(state).traitors_requested,
        final(state).storm == old(state).storm,
        final(state).pools == old(state).pools,
{
    let ghost p0 = state.players@;
    let ghost order = state.play_order@;
    let ghost ts = spec_targets(p0, order, state.active_player as int);
    let ghost s0 = stack@;
    let a_pos = state.active_player;
    let a_idx = state.play_order[a_pos];
    let a_faction = state.players[a_idx].faction;
    if !(a_faction == Faction::BeneGesserit || a_faction == Faction::Fremen) {
        schedule_one(&mut state.players, a_idx, stack);
        proof {
            assert(ts =~= seq![a_idx]);
            lemma_single_target(p0, a_idx, ts);
            lemma_schedule_one_credit_step(p0, a_idx as int);
            if !p0[a_idx as int].placement_scheduled {
                assert(stack@.take(s0.len() as int) == stack@.drop_last());
                assert(stack@[s0.len() as int] == stack@.last());
            } else {
                assert(stack@.take(s0.len() as int) =~= stack@);
            }
            lemma_resolve_preserves_wf(*old(state), *state);
        }
        return ;
    }
    // The active player is BeneGesserit or Fremen: scan the play order for
    // whichever of the two comes first.
    let mut k: usize = 0;
    loop
        invariant
            state == old(state),
            old(state).wf(),
            a_pos == state.active_player,
            a_idx == state.play_order@[a_pos as int],
            a_faction == state.players@[a_idx as int].faction,
            is_special(a_faction),
            0 <= k <= a_pos,
            forall|j: int|
                0 <= j < k ==> !is_special(
                    state.players@[#[trigger] state.play_order@[j] as int].faction,
                ),
        ensures
            state == old(state),
            0 <= k <= a_pos,
            is_special(state.players@[state.play_order@[k as int] as int].faction),
            forall|j: int|
                0 <= j < k ==> !is_special(
                    state.players@[#[trigger] state.play_order@[j] as int].faction,
                ),
        decreases a_pos - k,
    {
        let f = state.players[state.play_order[k]].faction;
        if f == Faction::BeneGesserit || f == Faction::Fremen {
            break ;
        }
        proof {
            assert(k != a_pos);
        }
        k = k + 1;
    }
    let first_idx = state.play_order[k];
    let first_faction = state.players[first_idx].faction;
    proof {
        lemma_first_special_unique(p0, order, k as int);
    }
    if first_faction == Faction::Fremen {
        schedule_one(&mut state.players, a_idx, stack);
        proof {
            assert(ts =~= seq![a_idx]);
            lemma_single_target(p0, a_idx, ts);
            lemma_schedule_one_credit_step(p0, a_idx as int);
            if !p0[a_idx as int].placement_scheduled {
                assert(stack@.take(s0.len() as int) == stack@.drop_last());
                assert(stack@[s0.len() as int] == stack@.last());
            } else {
                assert(stack@.take(s0.len() as int) =~= stack@);
            }
            lemma_resolve_preserves_wf(*old(state), *state);
        }
        return ;
    }
    // BeneGesserit comes first: push the Fremen player's placement, if a
    // Fremen player is in the game, then BeneGesserit's on top of it.
    let n = state.players.len();
    let mut fi: usize = 0;
    loop
        invariant
            state == old(state),
            n == state.players@.len(),
            0 <= fi <= n,
            forall|j: int| 0 <= j < fi ==> (#[trigger] state.players@[j]).faction != Faction::Fremen,
        ensures
            0 <= fi <= n,
            forall|j: int| 0 <= j < fi ==> (#[trigger] state.players@[j]).faction != Faction::Fremen,
            fi < n ==> state.players@[fi as int].faction == Faction::Fremen,
            state == old(state),
        decreases n - fi,
    {
        if fi >= n {
            break ;
        }
        if state.players[fi].faction == Faction::Fremen {
            break ;
        }
        fi = fi + 1;
    }
    if fi < n {
        proof {
            lemma_find_faction_unique(p0, Faction::Fremen, fi as int);
            assert(ts == seq![fi, first_idx]);
            assert(fi != first_idx);
        }
        let ghost mid_players = spec_schedule_one(p0, fi as int);
        schedule_one(&mut state.players, fi, stack);
        let ghost s1 = stack@;
        schedule_one(&mut state.players, first_idx, stack);
        proof {
            lemma_double_target(p0, fi, first_idx, ts);
            lemma_schedule_one_credit_step(p0, fi as int);
            lemma_schedule_one_credit_step(mid_players, first_idx as int);
            lemma_crediting_composes(p0, mid_players, state.players@);
            assert(mid_players[first_idx as int] == p0[first_idx as int]);
            let pushed = spec_pushed_targets(p0, ts);
            let head_f: Seq<usize> = if p0[fi as int].placement_scheduled {
                Seq::empty()
            } else {
                seq![fi]
            };
            let head_b: Seq<usize> = if p0[first_idx as int].placement_scheduled {
                Seq::empty()
            } else {
                seq![first_idx]
            };
            assert(pushed == head_f + head_b);
            lemma_two_pushes(s0, s1, stack@, pushed, head_f, head_b);
            lemma_resolve_preserves_wf(*old(state), *state);
        }
    } else {
        proof {
            lemma_find_faction_none(p0, Faction::Fremen);
            assert(ts =~= seq![first_idx]);
            assert(ts.drop_first() =~= Seq::<usize>::empty());
        }
        schedule_one(&mut state.players, first_idx, stack);
        proof {
            lemma_single_target(p0, first_idx, ts);
            lemma_schedule_one_credit_step(p0, first_idx as int);
            if !p0[first_idx as int].placement_scheduled {
                assert(stack@.take(s0.len() as int) == stack@.drop_last());
                assert(stack@[s0.len() as int] == stack@.last());
            } else {
                assert(stack@.take(s0.len() as int) =~= stack@);
            }
            lemma_resolve_preserves_wf(*old(state), *state);
        }
    }
}

/// Where the scan for a faction lands: `Some(k)` exactly when player `k`
/// holds the faction and no player before `k` does.
proof fn lemma_find_faction_characterize(players: Seq<Player>, f: Faction)
    ensures
        match spec_find_faction(players, f) {
            None => forall|j: int| 0 <= j < players.len() ==> (#[trigger] players[j]).faction != f,
            Some(k) => 0 <= k < players.len() && players[k].faction == f && forall|j: int|
                0 <= j < k ==> (#[trigger] players[j]).faction != f,
        },
    decreases players.len(),
{
    if players.len() > 0 && players[0].faction != f {
        lemma_find_faction_characterize(players.drop_first(), f);
        match spec_find_faction(players, f) {
            None => {
                assert forall|j: int| 0 <= j < players.len() implies (#[trigger] players[j]).faction
                    != f by {
                    if j > 0 {
                        assert(players.drop_first()[j - 1] == players[j]);
                    }
                }
            },
            Some(k) => {
                assert(players.drop_first()[k - 1] == players[k]);
                assert forall|j: int| 0 <= j < k implies (#[trigger] players[j]).faction != f by {
                    if j > 0 {
                        assert(players.drop_first()[j - 1] == players[j]);
                    }
                }
            },
        }
    }
}

/// Deal the top traitor card to player `j`: the card moves from the deck
/// to the hand; nothing else changes and no card is gained or lost.
fn deal_one_traitor(state: &mut GameState, j: usize)
    requires
        old(state).wf(),
        j < old(state).players@.len(),
        old(state).pools.traitor.draw_pile().len() > 0,
    ensures
        final(state).wf(),
        final(state).players@.len() == old(state).players@.len(),
        forall|i: int|
            0 <= i < old(state).players@.len() && i != j ==> final(state).players@[i] == old(
                state,
            ).players@[i],
        spec_deals_traitor(
            old(state).players@[j as int],
            final(state).players@[j as int],
            old(state).pools.traitor.draw_pile().last(),
        ),
        final(state).pools.traitor.draw_pile() == old(state).pools.traitor.draw_pile().drop_last(),
        final(state).pools.traitor.discard_pile() == old(state).pools.traitor.discard_pile(),
        spec_traitor_total(*final(state)) == spec_traitor_total(*old(state)),
        spec_treachery_total(*final(state)) == spec_treachery_total(*old(state)),
        final(state).pools.treachery == old(state).pools.treachery,
        final(state).pools.spice == old(state).pools.spice,
        final(state).pools.storm == old(state).pools.storm,
        final(state).pools.spice_bank == old(state).pools.spice_bank,
        final(state).phase == old(state).phase,
        final(state).turn == old(state).turn,
        final(state).active_player == old(state).active_player,
        final(state).play_order == old(state).play_order,
        final(state).prediction_requested == old(state).prediction_requested,
        final(state).traitors_requested == old(state).traitors_requested,
        final(state).storm == old(state).storm,
{
    let ghost p0 = state.players@;
    let card = match state.pools.traitor.draw() {
        Some(c) => c,
        None => vstd::pervasive::unreached(),
    };
    let p = &mut state.players[j];
    p.traitor_cards.push(card);
    proof {
        broadcast use vstd::multiset::group_multiset_axioms;

        let new_p = state.players@[j as int];
        lemma_hands_update_push(p0, |q: Player| q.traitor_cards@, j as int, new_p, card);
        lemma_hands_update_same(p0, |q: Player| q.treachery_cards@, j as int, new_p);
        old(state).pools.traitor.draw_pile().to_multiset_ensures();
        assert(old(state).pools.traitor.draw_pile().contains(
            old(state).pools.traitor.draw_pile().last(),
        ));
        assert(spec_traitor_total(*state) =~= spec_traitor_total(*old(state)));
        assert(spec_treachery_total(*state) =~= spec_treachery_total(*old(state)));
    }
}

/// Deal the top treachery card to player `j`.
fn deal_one_treachery(state: &mut GameState, j: usize)
    requires
        old(state).wf(),
        j < old(state).players@.len(),
        old(state).pools.treachery.draw_pile().len() > 0,
    ensures
        final(state).wf(),
        final(state).players@.len() == old(state).players@.len(),
        forall|i: int|
            0 <= i < old(state).players@.len() && i != j ==> final(state).players@[i] == old(
                state,
            ).players@[i],
        spec_deals_treachery(
            old(state).players@[j as int],
            final(state).players@[j as int],
            old(state).pools.treachery.draw_pile().last(),
        ),
        final(state).pools.treachery.draw_pile() == old(
            state,
        ).pools.treachery.draw_pile().drop_last(),
        final(state).pools.treachery.discard_pile() == old(state).pools.treachery.discard_pile(),
        spec_traitor_total(*final(state)) == spec_traitor_total(*old(state)),
        spec_treachery_total(*final(state)) == spec_treachery_total(*old(state)),
        final(state).pools.traitor == old(state).pools.traitor,
        final(state).pools.spice == old(state).pools.spice,
        final(state).pools.storm == old(state).pools.storm,
        final(state).pools.spice_bank == old(state).pools.spice_bank,
        final(state).phase == old(state).phase,
        final(state).turn == old(state).turn,
        final(state).active_player == old(state).active_player,
        final(state).play_order == old(state).play_order,
        final(state).prediction_requested == old(state).prediction_requested,
        final(state).traitors_requested == old(state).traitors_requested,
        final(state).storm == old(state).storm,
{
    let ghost p0 = state.players@;
    let card = match state.pools.treachery.draw() {
        Some(c) => c,
        None => vstd::pervasive::unreached(),
    };
    let p = &mut state.players[j];
    p.treachery_cards.push(card);
    proof {
        broadcast use vstd::multiset::group_multiset_axioms;

        let new_p = state.players@[j as int];
        lemma_hands_update_push(p0, |q: Player| q.treachery_cards@, j as int, new_p, card);
        lemma_hands_update_same(p0, |q: Player| q.traitor_cards@, j as int, new_p);
        old(state).pools.treachery.draw_pile().to_multiset_ensures();
        assert(old(state).pools.treachery.draw_pile().contains(
            old(state).pools.treachery.draw_pile().last(),
        ));
        assert(spec_treachery_total(*state) =~= spec_treachery_total(*old(state)));
        assert(spec_traitor_total(*state) =~= spec_traitor_total(*old(state)));
    }
}

/// Deal four rounds of one traitor card to each player in play order,
/// drawing from the top of the traitor deck.  Fails, leaving the state
/// untouched, exactly when the deck holds fewer than four cards per
/// player.  On success the player at position `k` of the play order has
/// received, in order, the four cards `spec_dealt_traitors` names, and
/// every traitor card is still accounted for.
pub fn deal_traitors(state: &mut GameState) -> (r: Result<(), EngineError>)
    requires
        old(state).wf(),
    ensures
        final(state).wf(),
        r is Err <==> old(state).pools.traitor.draw_pile().len() < 4 * old(
            state,
        ).players@.len(),
        r is Err ==> *final(state) == *old(state),
        r is Ok ==> {
            let deck0 = old(state).pools.traitor.draw_pile();
            let order = old(state).play_order@;
            let n = old(state).players@.len() as int;
            &&& final(state).pools.traitor.draw_pile() == deck0.take(deck0.len() - 4 * n)
            &&& final(state).pools.traitor.discard_pile() == old(
                state,
            ).pools.traitor.discard_pile()
            &&& forall|k: int|
                0 <= k < n ==> #[trigger] final(state).players@[order[k] as int].traitor_cards@
                    == old(state).players@[order[k] as int].traitor_cards@ + spec_dealt_traitors(
                    deck0,
                    n,
                    k,
                )
            &&& forall|i: int|
                0 <= i < n ==> spec_same_except_traitor_hand(
                    old(state).players@[i],
                    #[trigger] final(state).players@[i],
                )
        },
        spec_traitor_total(*final(state)) == spec_traitor_total(*old(state)),
        spec_treachery_total(*final(state)) == spec_treachery_total(*old(state)),
        final(state).pools.treachery == old(state).pools.treachery,
        final(state).pools.spice == old(state).pools.spice,
        final(state).pools.storm == old(state).pools.storm,
        final(state).pools.spice_bank == old(state).pools.spice_bank,
        final(state).phase == old(state).phase,
        final(state).turn == old(state).turn,
        final(state).active_player == old(state).active_player,
        final(state).play_order == old(state).play_order,
        final(state).prediction_requested == old(state).prediction_requested,
        final(state).traitors_requested == old(state).traitors_requested,
        final(state).storm == old(state).storm,
{
    let ghost deck0 = state.pools.traitor.draw_pile();
    let ghost p0 = state.players@;
    let ghost order = state.play_order@;
    let n = state.players.len();
    if state.pools.traitor.len() / 4 < n {
        proof {
            vstd::arithmetic::div_mod::lemma_fundamental_div_mod(deck0.len() as int, 4);
            vstd::arithmetic::div_mod::lemma_mod_division_less_than_divisor(
                deck0.len() as int,
                4,
            );
        }
        return Err(EngineError::DeckExhausted);
    }
    proof {
        vstd::arithmetic::div_mod::lemma_fundamental_div_mod(deck0.len() as int, 4);
        vstd::arithmetic::div_mod::lemma_mod_division_less_than_divisor(deck0.len() as int, 4);
        assert(4 * (n as int) <= deck0.len()) by (nonlinear_arith)
            requires
                deck0.len() as int == 4 * ((deck0.len() as int) / 4) + (deck0.len() as int) % 4,
                0 <= (deck0.len() as int) % 4,
                n as int <= (deck0.len() as int) / 4,
        ;
    }
    let mut round: usize = 0;
    while round < 4
        invariant
            old(state).wf(),
            state.wf(),
            round <= 4,
            n == state.players@.len(),
            n == p0.len(),
            order == state.play_order@,
            deck0 == old(state).pools.traitor.draw_pile(),
            p0 == old(state).players@,
            4 * (n as int) <= deck0.len(),
            state.pools.traitor.draw_pile() == deck0.take(deck0.len() - (round as int) * (
            n as int)),
            state.pools.traitor.discard_pile() == old(state).pools.traitor.discard_pile(),
            forall|k: int|
                0 <= k < n ==> #[trigger] state.players@[order[k] as int].traitor_cards@
                    == p0[order[k] as int].traitor_cards@ + spec_dealt_traitors(
                    deck0,
                    n as int,
                    k,
                ).take(round as int),
            forall|i: int|
                0 <= i < n ==> spec_same_except_traitor_hand(
                    p0[i],
                    #[trigger] state.players@[i],
                ),
            spec_traitor_total(*state) == spec_traitor_total(*old(state)),
            spec_treachery_total(*state) == spec_treachery_total(*old(state)),
            state.pools.treachery == old(state).pools.treachery,
            state.pools.spice == old(state).pools.spice,
            state.pools.storm == old(state).pools.storm,
            state.pools.spice_bank == old(state).pools.spice_bank,
            state.phase == old(state).phase,
            state.turn == old(state).turn,
            state.active_player == old(state).active_player,
            state.play_order == old(state).play_order,
            state.prediction_requested == old(state).prediction_requested,
            state.traitors_requested == old(state).traitors_requested,
            state.storm == old(state).storm,
        decreases 4 - round,
    {
        let mut k: usize = 0;
        while k < n
            invariant
                old(state).wf(),
                state.wf(),
                round < 4,
                k <= n,
                n == state.players@.len(),
                n == p0.len(),
                order == state.play_order@,
                deck0 == old(state).pools.traitor.draw_pile(),
                p0 == old(state).players@,
                4 * (n as int) <= deck0.len(),
                state.pools.traitor.draw_pile() == deck0.take(
                    deck0.len() - ((round as int) * (n as int) + k as int),
                ),
                state.pools.traitor.discard_pile() == old(state).pools.traitor.discard_pile(),
                forall|q: int|
                    0 <= q < n ==> #[trigger] state.players@[order[q] as int].traitor_cards@
                        == p0[order[q] as int].traitor_cards@ + spec_dealt_traitors(
                        deck0,
                        n as int,
                        q,
                    ).take(round as int + (if q < k as int { 1int } else { 0int })),
                forall|i: int|
                    0 <= i < n ==> spec_same_except_traitor_hand(
                        p0[i],
                        #[trigger] state.players@[i],
                    ),
                spec_traitor_total(*state) == spec_traitor_total(*old(state)),
                spec_treachery_total(*state) == spec_treachery_total(*old(state)),
                state.pools.treachery == old(state).pools.treachery,
                state.pools.spice == old(state).pools.spice,
                state.pools.storm == old(state).pools.storm,
                state.pools.spice_bank == old(state).pools.spice_bank,
                state.phase == old(state).phase,
                state.turn == old(state).turn,
                state.active_player == old(state).active_player,
                state.play_order == old(state).play_order,
                state.prediction_requested == old(state).prediction_requested,
                state.traitors_requested == old(state).traitors_requested,
                state.storm == old(state).storm,
            decreases n - k,
        {
            proof {
                assert((round as int) * (n as int) + (k as int) < 4 * (n as int))
                    by (nonlinear_arith)
                    requires
                        round < 4,
                        (k as int) < (n as int),
                ;
            }
            let ghost pos = deck0.len() - ((round as int) * (n as int) + k as int);
            let ghost prev = state.players@;
            let j = state.play_order[k];
            deal_one_traitor(state, j);
            proof {
                let ghost dealt = spec_dealt_traitors(deck0, n as int, k as int);
                assert(deck0.take(pos).last() == deck0[pos - 1]);
                assert(dealt[round as int] == deck0[pos - 1]);
                assert(deck0.take(pos).drop_last() =~= deck0.take(pos - 1));
                assert(dealt.take(round as int + 1) =~= dealt.take(round as int).push(
                    dealt[round as int],
                ));
                assert(state.players@[order[k as int] as int].traitor_cards@ == p0[order[
                    k as int] as int].traitor_cards@ + dealt.take(round as int + 1)) by {
                    assert(p0[order[k as int] as int].traitor_cards@ + dealt.take(
                        round as int,
                    ).push(dealt[round as int]) =~= (p0[order[k as int] as int].traitor_cards@
                        + dealt.take(round as int)).push(dealt[round as int]));
                }
                assert forall|q: int| 0 <= q < n && q != k as int implies #[trigger] state.players@[order[q] as int].traitor_cards@
                    == p0[order[q] as int].traitor_cards@ + spec_dealt_traitors(
                    deck0,
                    n as int,
                    q,
                ).take(round as int + (if q < k as int + 1 { 1int } else { 0int })) by {
                    assert(order[q] != order[k as int]);
                    assert(state.players@[order[q] as int] == prev[order[q] as int]);
                }
            }
            k = k + 1;
        }
        proof {
            assert((round as int) * (n as int) + (n as int) == (round as int + 1) * (n as int))
                by (nonlinear_arith);
        }
        round = round + 1;
    }
    proof {
        assert forall|k: int| 0 <= k < n implies #[trigger] state.players@[order[k] as int].traitor_cards@
            == p0[order[k] as int].traitor_cards@ + spec_dealt_traitors(deck0, n as int, k) by {
            assert(spec_dealt_traitors(deck0, n as int, k).take(4) =~= spec_dealt_traitors(
                deck0,
                n as int,
                k,
            ));
        }
    }
    Ok(())
}

/// Deal one treachery card to each player in play order and a second one
/// to the Harkonnen player.  Fails, leaving the state untouched, exactly
/// when the treachery deck cannot cover the deal.
pub fn deal_treachery(state: &mut GameState) -> (r: Result<(), EngineError>)
    requires
        old(state).wf(),
    ensures
        final(state).wf(),
        r is Err <==> old(state).pools.treachery.draw_pile().len() < old(state).players@.len() + (
        if spec_find_faction(old(state).players@, Faction::Harkonnen) is Some {
            1int
        } else {
            0int
        }),
        r is Err ==> *final(state) == *old(state),
        r is Ok ==> {
            let deck0 = old(state).pools.treachery.draw_pile();
            let order = old(state).play_order@;
            let n = old(state).players@.len() as int;
            let need = n + (if spec_find_faction(old(state).players@, Faction::Harkonnen)
                is Some {
                1int
            } else {
                0int
            });
            &&& final(state).pools.treachery.draw_pile() == deck0.take(deck0.len() - need)
            &&& final(state).pools.treachery.discard_pile() == old(
                state,
            ).pools.treachery.discard_pile()
            &&& forall|k: int|
                0 <= k < n ==> #[trigger] final(state).players@[order[k] as int].treachery_cards@
                    == old(state).players@[order[k] as int].treachery_cards@
                    + spec_dealt_treachery(
                    deck0,
                    n,
                    k,
                    old(state).players@[order[k] as int].faction == Faction::Harkonnen,
                )
            &&& forall|i: int|
                0 <= i < n ==> spec_same_except_treachery_hand(
                    old(state).players@[i],
                    #[trigger] final(state).players@[i],
                )
        },
        spec_traitor_total(*final(state)) == spec_traitor_total(*old(state)),
        spec_treachery_total(*final(state)) == spec_treachery_total(*old(state)),
        final(state).pools.traitor == old(state).pools.traitor,
        final(state).pools.spice == old(state).pools.spice,
        final(state).pools.storm == old(state).pools.storm,
        final(state).pools.spice_bank == old(state).pools.spice_bank,
        final(state).phase == old(state).phase,
        final(state).turn == old(state).turn,
        final(state).active_player == old(state).active_player,
        final(state).play_order == old(state).play_order,
        final(state).prediction_requested == old(state).prediction_requested,
        final(state).traitors_requested == old(state).traitors_requested,
        final(state).storm == old(state).storm,
{
    let ghost deck0 = state.pools.treachery.draw_pile();
    let ghost p0 = state.players@;
    let ghost order = state.play_order@;
    let n = state.players.len();
    let mut hk: usize = 0;
    loop
        invariant
            state == old(state),
            n == state.players@.len(),
            0 <= hk <= n,
            forall|j: int|
                0 <= j < hk ==> (#[trigger] state.players@[j]).faction != Faction::Harkonnen,
        ensures
            0 <= hk <= n,
            forall|j: int|
                0 <= j < hk ==> (#[trigger] state.players@[j]).faction != Faction::Harkonnen,
            hk < n ==> state.players@[hk as int].faction == Faction::Harkonnen,
            state == old(state),
        decreases n - hk,
    {
        if hk >= n {
            break ;
        }
        if state.players[hk].faction == Faction::Harkonnen {
            break ;
        }
        hk = hk + 1;
    }
    let has_hk = hk < n;
    proof {
        if has_hk {
            lemma_find_faction_unique(p0, Faction::Harkonnen, hk as int);
        } else {
            lemma_find_faction_none(p0, Faction::Harkonnen);
        }
    }
    let deck_len = state.pools.treachery.len();
    if deck_len < n || (has_hk && deck_len == n) {
        return Err(EngineError::DeckExhausted);
    }
    let mut k: usize = 0;
    while k < n
        invariant
            old(state).wf(),
            state.wf(),
            k <= n,
            n == state.players@.len(),
            n == p0.len(),
            order == state.play_order@,
            deck0 == old(state).pools.treachery.draw_pile(),
            p0 == old(state).players@,
            (n as int) + (if has_hk {
                1int
            } else {
                0int
            }) <= deck0.len(),
            state.pools.treachery.draw_pile() == deck0.take(deck0.len() - k as int),
            state.pools.treachery.discard_pile() == old(state).pools.treachery.discard_pile(),
            forall|q: int|
                0 <= q < k ==> #[trigger] state.players@[order[q] as int].treachery_cards@
                    == p0[order[q] as int].treachery_cards@ + seq![
                    deck0[deck0.len() - 1 - q],
                ],
            forall|q: int|
                k <= q < n ==> #[trigger] state.players@[order[q] as int].treachery_cards@
                    == p0[order[q] as int].treachery_cards@,
            forall|i: int|
                0 <= i < n ==> spec_same_except_treachery_hand(
                    p0[i],
                    #[trigger] state.players@[i],
                ),
            spec_traitor_total(*state) == spec_traitor_total(*old(state)),
            spec_treachery_total(*state) == spec_treachery_total(*old(state)),
            state.pools.traitor == old(state).pools.traitor,
            state.pools.spice == old(state).pools.spice,
            state.pools.storm == old(state).pools.storm,
            state.pools.spice_bank == old(state).pools.spice_bank,
            state.phase == old(state).phase,
            state.turn == old(state).turn,
            state.active_player == old(state).active_player,
            state.play_order == old(state).play_order,
            state.prediction_requested == old(state).prediction_requested,
            state.traitors_requested == old(state).traitors_requested,
            state.storm == old(state).storm,
        decreases n - k,
    {
        let ghost pos = deck0.len() - k as int;
        let ghost prev = state.players@;
        let j = state.play_order[k];
        deal_one_treachery(state, j);
        proof {
            assert(deck0.take(pos).last() == deck0[pos - 1]);
            assert(deck0.take(pos).drop_last() =~= deck0.take(pos - 1));
            assert forall|q: int| 0 <= q < n && q != k as int implies #[trigger] state.players@[order[q] as int].treachery_cards@
                == prev[order[q] as int].treachery_cards@ by {
                assert(order[q] != order[k as int]);
            }
        }
        k = k + 1;
    }
    if has_hk {
        let ghost prev = state.players@;
        let ghost pos = deck0.len() - n as int;
        deal_one_treachery(state, hk);
        proof {
            assert(deck0.take(pos).last() == deck0[pos - 1]);
            assert(deck0.take(pos).drop_last() =~= deck0.take(pos - 1));
            let kh = choose|kh: int| 0 <= kh < n && order[kh] == hk as int;
            assert forall|q: int| 0 <= q < n implies #[trigger] state.players@[order[q] as int].treachery_cards@
                == p0[order[q] as int].treachery_cards@ + spec_dealt_treachery(
                deck0,
                n as int,
                q,
                p0[order[q] as int].faction == Faction::Harkonnen,
            ) by {
                if order[q] == hk as int {
                    assert(p0[order[q] as int].faction == Faction::Harkonnen);
                    assert(state.players@[hk as int].treachery_cards@ == (p0[hk as int].treachery_cards@
                        + seq![deck0[deck0.len() - 1 - q]]).push(deck0[pos - 1]));
                    assert((p0[hk as int].treachery_cards@ + seq![deck0[deck0.len() - 1 - q]]).push(
                        deck0[pos - 1],
                    ) =~= p0[hk as int].treachery_cards@ + seq![
                        deck0[deck0.len() - 1 - q],
                        deck0[deck0.len() - 1 - (n as int)],
                    ]);
                } else {
                    assert(state.players@[order[q] as int] == prev[order[q] as int]);
                    assert(p0[order[q] as int].faction != Faction::Harkonnen);
                }
            }
        }
        Ok(())
    } else {
        proof {
            assert forall|q: int| 0 <= q < n implies #[trigger] state.players@[order[q] as int].treachery_cards@
                == p0[order[q] as int].treachery_cards@ + spec_dealt_treachery(
                deck0,
                n as int,
                q,
                p0[order[q] as int].faction == Faction::Harkonnen,
            ) by {
                assert(p0[order[q] as int].faction != Faction::Harkonnen);
            }
        }
        Ok(())
    }
}

/// Scheduling preserves the state's well-formedness: only scheduled flags
/// and spice totals change, and a credit removes its own headroom demand.
proof fn lemma_resolve_preserves_wf(a: GameState, b: GameState)
    requires
        a.wf(),
        spec_credit_step(a.players@, b.players@),
        b.play_order == a.play_order,
        b.active_player == a.active_player,
        b.storm == a.storm,
    ensures
        b.wf(),
{
    assert forall|i: int|
        0 <= i < b.players@.len() && !(#[trigger] b.players@[i]).placement_scheduled implies b.players@[i].total_spice
        + crate::faction::spec_initial_spice(b.players@[i].faction) <= u64::MAX by {
        assert(spec_credit_step_at(a.players@[i], b.players@[i]));
    }
    assert forall|i: int, j: int|
        0 <= i < b.players@.len() && 0 <= j < b.players@.len() && i != j implies #[trigger] b.players@[i].faction
        != #[trigger] b.players@[j].faction by {
        assert(spec_credit_step_at(a.players@[i], b.players@[i]));
        assert(spec_credit_step_at(a.players@[j], b.players@[j]));
    }
}

/// Combining two optional pushes: the stack grows by exactly the pushed
/// actions, in order, with the old contents untouched below them.
proof fn lemma_two_pushes(
    s0: Seq<Action>,
    s1: Seq<Action>,
    s2: Seq<Action>,
    pushed: Seq<usize>,
    head_f: Seq<usize>,
    head_b: Seq<usize>,
)
    requires
        pushed == head_f + head_b,
        head_f.len() <= 1,
        head_b.len() <= 1,
        s1.len() == s0.len() + head_f.len(),
        head_f.len() == 1 ==> s1.drop_last() == s0,
        head_f.len() == 0 ==> s1 == s0,
        s2.len() == s1.len() + head_b.len(),
        head_b.len() == 1 ==> s2.drop_last() == s1,
        head_b.len() == 0 ==> s2 == s1,
    ensures
        s2.len() == s0.len() + pushed.len(),
        s2.take(s0.len() as int) == s0,
        head_f.len() == 1 ==> s2[s0.len() as int] == s1.last(),
{
    assert(s2.take(s0.len() as int) =~= s0);
}

/// Handle of the Weather Control treachery card in the rule data.
pub const WEATHER_CONTROL_CARD: u64 = 101;

/// Handle of the Family Atomics treachery card in the rule data.
pub const FAMILY_ATOMICS_CARD: u64 = 102;

/// `q` is `p` with at most the visibility flag changed.
pub open spec fn spec_same_except_visible(p: Player, q: Player) -> bool {
    &&& q.faction == p.faction
    &&& q.traitor_cards == p.traitor_cards
    &&& q.treachery_cards == p.treachery_cards
    &&& q.total_spice == p.total_spice
    &&& q.reserve_troops == p.reserve_troops
    &&& q.leaders == p.leaders
    &&& q.placement_scheduled == p.placement_scheduled
}

/// Whether every player's initial placement has been scheduled; the exit
/// condition of the placement sub-phase.
pub open spec fn spec_all_scheduled(players: Seq<Player>) -> bool {
    forall|i: int| 0 <= i < players.len() ==> (#[trigger] players[i]).placement_scheduled
}

/// The prediction requests the setup phase pushes: one for the
/// BeneGesserit player, when that faction is in play.
pub open spec fn spec_prediction_actions(players: Seq<Player>) -> Seq<Action> {
    match spec_find_faction(players, Faction::BeneGesserit) {
        None => Seq::empty(),
        Some(b) => seq![Action::MakePrediction { player: b as usize }],
    }
}

/// The stub progression through the phases this engine does not yet give
/// internal structure; each advances to the next phase of the turn, and
/// the turn wraps from Control back into the next turn's storm.
pub open spec fn spec_stub_next(p: Phase) -> Phase {
    match p {
        Phase::SpiceBlow => Phase::Nexus,
        Phase::Nexus => Phase::Bidding,
        Phase::Bidding => Phase::Revival,
        Phase::Revival => Phase::Movement,
        Phase::Movement => Phase::Battle,
        Phase::Battle => Phase::Collection,
        Phase::Collection => Phase::Control,
        Phase::Control => Phase::Storm(StormSubPhase::Reveal),
        _ => p,
    }
}

/// A shuffle of the identity order is a permutation: every entry is a
/// player index and none repeats.
proof fn lemma_shuffled_identity_is_permutation(identity: Seq<usize>, shuffled: Seq<usize>, n: int)
    requires
        identity.len() == n,
        forall|j: int| 0 <= j < n ==> #[trigger] identity[j] == j,
        shuffled.to_multiset() == identity.to_multiset(),
        shuffled.len() == identity.len(),
    ensures
        forall|k: int| 0 <= k < shuffled.len() ==> #[trigger] shuffled[k] < n,
        shuffled.no_duplicates(),
{
    identity.to_multiset_ensures();
    shuffled.to_multiset_ensures();
    assert(identity.no_duplicates());
    identity.lemma_multiset_has_no_duplicates();
    assert forall|k: int| 0 <= k < shuffled.len() implies #[trigger] shuffled[k] < n by {
        assert(shuffled.contains(shuffled[k]));
        assert(identity.to_multiset().count(shuffled[k]) > 0);
        assert(identity.contains(shuffled[k]));
        let j = choose|j: int| 0 <= j < identity.len() && identity[j] == shuffled[k];
        assert(shuffled[k] == j);
    }
    shuffled.lemma_multiset_has_no_duplicates_conv();
}

/// The full effect of one phase-machine advance: what each sub-phase
/// does to the state and the stack, and that a failed advance leaves
/// both exactly as they were.
pub open spec fn spec_phase_advance(
    pre: GameState,
    post: GameState,
    s0: Seq<Action>,
    s1: Seq<Action>,
    r: Result<(), EngineError>,
) -> bool {
    &&& post.wf()
    &&& (r is Err ==> post == pre && s1 == s0)
    &&& match pre.phase {
        Phase::Setup(SetupSubPhase::ChooseFactions) => {
            &&& r is Ok
            &&& post.phase == Phase::Setup(SetupSubPhase::Prediction)
            &&& post.players@.len() == pre.players@.len()
            &&& forall|i: int|
                0 <= i < pre.players@.len() ==> {
                    &&& spec_same_except_visible(
                        pre.players@[i],
                        #[trigger] post.players@[i],
                    )
                    &&& post.players@[i].pieces_visible == (i == pre.play_order@[pre.active_player as int] as int)
                }
            &&& s1 == s0
            &&& post.turn == pre.turn
            &&& post.active_player == pre.active_player
            &&& post.play_order == pre.play_order
            &&& post.prediction_requested == pre.prediction_requested
            &&& post.traitors_requested == pre.traitors_requested
            &&& post.storm == pre.storm
            &&& post.pools == pre.pools
        },
        Phase::Setup(SetupSubPhase::Prediction) => {
            &&& r is Ok
            &&& post.players == pre.players
            &&& post.turn == pre.turn
            &&& post.active_player == pre.active_player
            &&& post.play_order == pre.play_order
            &&& post.traitors_requested == pre.traitors_requested
            &&& post.storm == pre.storm
            &&& post.pools == pre.pools
            &&& if !pre.prediction_requested {
                &&& post.phase == pre.phase
                &&& post.prediction_requested
                &&& s1 == s0 + spec_prediction_actions(
                    pre.players@,
                )
            } else {
                &&& post.phase == Phase::Setup(SetupSubPhase::AtStart)
                &&& post.prediction_requested
                &&& s1 == s0
            }
        },
        Phase::Setup(SetupSubPhase::AtStart) => {
            &&& r is Ok
            &&& spec_credit_step(pre.players@, post.players@)
            &&& post.turn == pre.turn
            &&& post.play_order == pre.play_order
            &&& post.prediction_requested == pre.prediction_requested
            &&& post.traitors_requested == pre.traitors_requested
            &&& post.storm == pre.storm
            &&& post.pools == pre.pools
            &&& if spec_all_scheduled(pre.players@) {
                &&& post.phase == Phase::Setup(SetupSubPhase::DealTraitors)
                &&& post.players == pre.players
                &&& post.active_player == pre.active_player
                &&& s1 == s0
            } else {
                &&& post.phase == pre.phase
                &&& post.players@ == spec_schedule_all(
                    pre.players@,
                    spec_targets(
                        pre.players@,
                        pre.play_order@,
                        pre.active_player as int,
                    ),
                )
                &&& post.active_player as int == (pre.active_player + 1) % (
                pre.play_order@.len() as int)
                &&& ({
                    let pushed = spec_pushed_targets(
                        pre.players@,
                        spec_targets(
                            pre.players@,
                            pre.play_order@,
                            pre.active_player as int,
                        ),
                    );
                    &&& s1.len() == s0.len() + pushed.len()
                    &&& forall|j: int|
                        0 <= j < pushed.len() ==> (#[trigger] s1[s0.len()
                            + j] matches Action::PlaceFreeTroops { player, num, locations }
                            && player == pushed[j] && num
                            == crate::faction::spec_initial_troops(
                            pre.players@[pushed[j] as int].faction,
                        ) && locations@ == crate::faction::spec_initial_locations(
                            pre.players@[pushed[j] as int].faction,
                        ))
                })
            }
        },
        Phase::Setup(SetupSubPhase::DealTraitors) => {
            &&& (r is Err <==> pre.pools.traitor.draw_pile().len() < 4 * pre.players@.len())
            &&& spec_traitor_total(post) == spec_traitor_total(pre)
            &&& spec_treachery_total(post) == spec_treachery_total(pre)
            &&& s1 == s0
            &&& r is Ok ==> {
                let deck0 = pre.pools.traitor.draw_pile();
                let order = pre.play_order@;
                let n = pre.players@.len() as int;
                &&& post.phase == Phase::Setup(SetupSubPhase::PickTraitors)
                &&& post.pools.traitor.draw_pile() == deck0.take(
                    deck0.len() - 4 * n,
                )
                &&& post.pools.traitor.discard_pile() == pre.pools.traitor.discard_pile()
                &&& forall|k: int|
                    0 <= k < n ==> #[trigger] post.players@[order[k] as int].traitor_cards@
                        == pre.players@[order[k] as int].traitor_cards@
                        + spec_dealt_traitors(deck0, n, k)
                &&& forall|i: int|
                    0 <= i < n ==> spec_same_except_traitor_hand(
                        pre.players@[i],
                        #[trigger] post.players@[i],
                    )
                &&& post.pools.treachery == pre.pools.treachery
                &&& post.pools.spice == pre.pools.spice
                &&& post.pools.storm == pre.pools.storm
                &&& post.pools.spice_bank == pre.pools.spice_bank
                &&& post.turn == pre.turn
                &&& post.active_player == pre.active_player
                &&& post.play_order == pre.play_order
                &&& post.prediction_requested == pre.prediction_requested
                &&& post.traitors_requested == pre.traitors_requested
                &&& post.storm == pre.storm
            }
        },
        Phase::Setup(SetupSubPhase::PickTraitors) => {
            &&& r is Ok
            &&& post.players == pre.players
            &&& post.turn == pre.turn
            &&& post.active_player == pre.active_player
            &&& post.play_order == pre.play_order
            &&& post.prediction_requested == pre.prediction_requested
            &&& post.storm == pre.storm
            &&& post.pools == pre.pools
            &&& if !pre.traitors_requested {
                &&& post.phase == pre.phase
                &&& post.traitors_requested
                &&& s1 == s0.push(Action::PickTraitors)
            } else {
                &&& post.phase == Phase::Setup(SetupSubPhase::DealTreachery)
                &&& post.traitors_requested
                &&& s1 == s0
            }
        },
        Phase::Setup(SetupSubPhase::DealTreachery) => {
            &&& (r is Err <==> pre.pools.treachery.draw_pile().len() < pre.players@.len() + (if spec_find_faction(
                pre.players@,
                Faction::Harkonnen,
            ) is Some {
                1int
            } else {
                0int
            }))
            &&& spec_traitor_total(post) == spec_traitor_total(pre)
            &&& spec_treachery_total(post) == spec_treachery_total(pre)
            &&& s1 == s0
            &&& r is Ok ==> {
                let deck0 = pre.pools.treachery.draw_pile();
                let order = pre.play_order@;
                let n = pre.players@.len() as int;
                let need = n + (if spec_find_faction(
                    pre.players@,
                    Faction::Harkonnen,
                ) is Some {
                    1int
                } else {
                    0int
                });
                &&& post.phase == Phase::Storm(StormSubPhase::Reveal)
                &&& post.pools.treachery.draw_pile() == deck0.take(
                    deck0.len() - need,
                )
                &&& forall|k: int|
                    0 <= k < n ==> #[trigger] post.players@[order[k] as int].treachery_cards@
                        == pre.players@[order[k] as int].treachery_cards@
                        + spec_dealt_treachery(
                        deck0,
                        n,
                        k,
                        pre.players@[order[k] as int].faction == Faction::Harkonnen,
                    )
                &&& forall|i: int|
                    0 <= i < n ==> spec_same_except_treachery_hand(
                        pre.players@[i],
                        #[trigger] post.players@[i],
                    )
                &&& post.pools.traitor == pre.pools.traitor
                &&& post.turn == pre.turn
                &&& post.active_player == pre.active_player
                &&& post.play_order == pre.play_order
                &&& post.storm == pre.storm
            }
        },
        Phase::Storm(StormSubPhase::Reveal) => {
            &&& r is Ok
            &&& post.phase == (if pre.turn == 0 {
                Phase::Storm(StormSubPhase::MoveStorm)
            } else {
                Phase::Storm(StormSubPhase::WeatherControl)
            })
            &&& post.players == pre.players
            &&& post.turn == pre.turn
            &&& post.active_player == pre.active_player
            &&& post.play_order == pre.play_order
            &&& post.prediction_requested == pre.prediction_requested
            &&& post.traitors_requested == pre.traitors_requested
            &&& post.storm == pre.storm
            &&& post.pools == pre.pools
            &&& s1 == s0
        },
        Phase::Storm(StormSubPhase::WeatherControl) => {
            &&& r is Ok
            &&& post.phase == Phase::Storm(StormSubPhase::FamilyAtomics)
            &&& s1 == s0.push(
                Action::PlayPrompt { treachery_card: WEATHER_CONTROL_CARD },
            )
            &&& post.active_player as int == (pre.active_player + 1) % (pre.play_order@.len() as int)
            &&& post.players == pre.players
            &&& post.turn == pre.turn
            &&& post.play_order == pre.play_order
            &&& post.prediction_requested == pre.prediction_requested
            &&& post.traitors_requested == pre.traitors_requested
            &&& post.storm == pre.storm
            &&& post.pools == pre.pools
        },
        Phase::Storm(StormSubPhase::FamilyAtomics) => {
            &&& r is Ok
            &&& post.phase == Phase::Storm(StormSubPhase::MoveStorm)
            &&& s1 == s0.push(
                Action::PlayPrompt { treachery_card: FAMILY_ATOMICS_CARD },
            )
            &&& post.active_player as int == (pre.active_player + 1) % (pre.play_order@.len() as int)
            &&& post.players == pre.players
            &&& post.turn == pre.turn
            &&& post.play_order == pre.play_order
            &&& post.prediction_requested == pre.prediction_requested
            &&& post.traitors_requested == pre.traitors_requested
            &&& post.storm == pre.storm
            &&& post.pools == pre.pools
        },
        Phase::Storm(StormSubPhase::MoveStorm) => {
            &&& post.players == pre.players
            &&& post.turn == pre.turn
            &&& post.active_player == pre.active_player
            &&& post.play_order == pre.play_order
            &&& post.prediction_requested == pre.prediction_requested
            &&& post.traitors_requested == pre.traitors_requested
            &&& post.pools.treachery == pre.pools.treachery
            &&& post.pools.traitor == pre.pools.traitor
            &&& post.pools.spice == pre.pools.spice
            &&& post.pools.spice_bank == pre.pools.spice_bank
            &&& s1 == s0
            &&& if pre.turn == 0 {
                &&& r is Ok
                &&& post.phase == Phase::SpiceBlow
                &&& post.pools.storm == pre.pools.storm
            } else {
                &&& (r is Err <==> pre.pools.storm.draw_pile().len() == 0)
                &&& r is Ok ==> {
                    &&& post.phase == Phase::SpiceBlow
                    &&& post.storm.sector == crate::storm::spec_next_sector(
                        pre.storm.sector,
                        pre.pools.storm.draw_pile().last(),
                    )
                    &&& post.pools.storm.total() == pre.pools.storm.total()
                    &&& post.pools.storm.discard_pile() == Seq::<u64>::empty()
                }
            }
        },
        _ => {
            &&& r is Ok
            &&& post.phase == spec_stub_next(pre.phase)
            &&& post.turn as int == (if pre.phase == Phase::Control && pre.turn < u64::MAX {
                pre.turn + 1
            } else {
                pre.turn as int
            })
            &&& post.players == pre.players
            &&& post.active_player == pre.active_player
            &&& post.play_order == pre.play_order
            &&& post.prediction_requested == pre.prediction_requested
            &&& post.traitors_requested == pre.traitors_requested
            &&& post.storm == pre.storm
            &&& post.pools == pre.pools
            &&& s1 == s0
        },
    }
}

/// Advance the phase machine by one step.  May be called only once the
/// action stack has drained; it performs exactly one sub-phase's work —
/// mutating shared state for deterministic steps, pushing blocking actions
/// for player decisions — as the match in the postcondition spells out.
/// Sub-phase transitions only ever move forward; a data-invariant
/// violation (an exhausted deck) fails the whole step and leaves the
/// state exactly as it was.
pub fn advance_phase(state: &mut GameState, stack: &mut ActionStack) -> (r: Result<
    (),
    EngineError,
>)
    requires
        old(state).wf(),
        old(stack)@.len() == 0,
    ensures
        spec_phase_advance(*old(state), *final(state), old(stack)@, final(stack)@, r),
{
    let ghost p0 = state.players@;
    match state.phase {
        Phase::Setup(SetupSubPhase::ChooseFactions) => {
            let a_idx = state.play_order[state.active_player];
            let n = state.players.len();
            let mut i: usize = 0;
            while i < n
                invariant
                    old(state).wf(),
                    i <= n,
                    n == state.players@.len(),
                    p0 == old(state).players@,
                    a_idx == old(state).play_order@[old(state).active_player as int],
                    state.phase == old(state).phase,
                    state.turn == old(state).turn,
                    state.active_player == old(state).active_player,
                    state.play_order == old(state).play_order,
                    state.prediction_requested == old(state).prediction_requested,
                    state.traitors_requested == old(state).traitors_requested,
                    state.storm == old(state).storm,
                    state.pools == old(state).pools,
                    forall|j: int|
                        0 <= j < i ==> {
                            &&& spec_same_except_visible(p0[j], #[trigger] state.players@[j])
                            &&& state.players@[j].pieces_visible == (j == a_idx as int)
                        },
                    forall|j: int| i <= j < n ==> #[trigger] state.players@[j] == p0[j],
                decreases n - i,
            {
                let v = i == a_idx;
                let p = &mut state.players[i];
                p.pieces_visible = v;
                i = i + 1;
            }
            state.phase = Phase::Setup(SetupSubPhase::Prediction);
            proof {
                assert(state.wf());
            }
            Ok(())
        },
        Phase::Setup(SetupSubPhase::Prediction) => {
            if !state.prediction_requested {
                let ghost s0 = stack@;
                let n = state.players.len();
                proof {
                    lemma_find_faction_characterize(p0, Faction::BeneGesserit);
                }
                let mut i: usize = 0;
                while i < n
                    invariant
                        old(state).wf(),
                        i <= n,
                        n == state.players@.len(),
                        p0 == old(state).players@,
                        state == old(state),
                        s0 == old(stack)@,
                        match spec_find_faction(p0, Faction::BeneGesserit) {
                            None => stack@ == s0,
                            Some(b) => stack@ == (if b < i {
                                s0 + spec_prediction_actions(p0)
                            } else {
                                s0
                            }),
                        },
                    decreases n - i,
                {
                    proof {
                        lemma_find_faction_characterize(p0, Faction::BeneGesserit);
                    }
                    if state.players[i].faction == Faction::BeneGesserit {
                        proof {
                            match spec_find_faction(p0, Faction::BeneGesserit) {
                                None => {
                                    assert(p0[i as int].faction != Faction::BeneGesserit);
                                    assert(false);
                                },
                                Some(b) => {
                                    if b != i as int {
                                        assert(p0[b].faction == Faction::BeneGesserit);
                                        assert(old(state).players@[b].faction != old(
                                            state,
                                        ).players@[i as int].faction);
                                        assert(false);
                                    }
                                },
                            }
                        }
                        stack.push(Action::MakePrediction { player: i });
                        proof {
                            assert(stack@ =~= s0 + spec_prediction_actions(p0));
                        }
                    }
                    i = i + 1;
                }
                state.prediction_requested = true;
                proof {
                    if spec_find_faction(p0, Faction::BeneGesserit) is None {
                        assert(stack@ =~= old(stack)@ + spec_prediction_actions(p0));
                    }
                }
                Ok(())
            } else {
                state.phase = Phase::Setup(SetupSubPhase::AtStart);
                Ok(())
            }
        },
        Phase::Setup(SetupSubPhase::AtStart) => {
            let n = state.players.len();
            let mut i: usize = 0;
            loop
                invariant
                    state == old(state),
                    n == state.players@.len(),
                    0 <= i <= n,
                    forall|j: int|
                        0 <= j < i ==> (#[trigger] state.players@[j]).placement_scheduled,
                ensures
                    0 <= i <= n,
                    forall|j: int|
                        0 <= j < i ==> (#[trigger] state.players@[j]).placement_scheduled,
                    i < n ==> !state.players@[i as int].placement_scheduled,
                    state == old(state),
                decreases n - i,
            {
                if i >= n {
                    break ;
                }
                if !state.players[i].placement_scheduled {
                    break ;
                }
                i = i + 1;
            }
            if i == n {
                state.phase = Phase::Setup(SetupSubPhase::DealTraitors);
                proof {
                    assert forall|q: int| 0 <= q < p0.len() implies spec_credit_step_at(
                        #[trigger] p0[q],
                        #[trigger] state.players@[q],
                    ) by {}
                }
                Ok(())
            } else {
                resolve_placement(state, stack);
                let len = state.play_order.len();
                proof {
                    assert(state.active_player < len);
                }
                state.active_player = (state.active_player + 1) % len;
                proof {
                    assert(state.wf());
                }
                Ok(())
            }
        },
        Phase::Setup(SetupSubPhase::DealTraitors) => {
            match deal_traitors(state) {
                Ok(()) => {
                    state.phase = Phase::Setup(SetupSubPhase::PickTraitors);
                    Ok(())
                },
                Err(e) => Err(e),
            }
        },
        Phase::Setup(SetupSubPhase::PickTraitors) => {
            if !state.traitors_requested {
                stack.push(Action::PickTraitors);
                state.traitors_requested = true;
            } else {
                state.phase = Phase::Setup(SetupSubPhase::DealTreachery);
            }
            Ok(())
        },
        Phase::Setup(SetupSubPhase::DealTreachery) => {
            match deal_treachery(state) {
                Ok(()) => {
                    state.phase = Phase::Storm(StormSubPhase::Reveal);
                    Ok(())
                },
                Err(e) => Err(e),
            }
        },
        Phase::Storm(StormSubPhase::Reveal) => {
            if state.turn == 0 {
                state.phase = Phase::Storm(StormSubPhase::MoveStorm);
            } else {
                state.phase = Phase::Storm(StormSubPhase::WeatherControl);
            }
            Ok(())
        },
        Phase::Storm(StormSubPhase::WeatherControl) => {
            stack.push(Action::PlayPrompt { treachery_card: WEATHER_CONTROL_CARD });
            let len = state.play_order.len();
            proof {
                assert(state.active_player < len);
            }
            state.active_player = (state.active_player + 1) % len;
            state.phase = Phase::Storm(StormSubPhase::FamilyAtomics);
            Ok(())
        },
        Phase::Storm(StormSubPhase::FamilyAtomics) => {
            stack.push(Action::PlayPrompt { treachery_card: FAMILY_ATOMICS_CARD });
            let len = state.play_order.len();
            proof {
                assert(state.active_player < len);
            }
            state.active_player = (state.active_player + 1) % len;
            state.phase = Phase::Storm(StormSubPhase::MoveStorm);
            Ok(())
        },
        Phase::Storm(StormSubPhase::MoveStorm) => {
            if state.turn == 0 {
                state.storm.randomize();
                state.phase = Phase::SpiceBlow;
                Ok(())
            } else if state.pools.storm.len() == 0 {
                Err(EngineError::DeckExhausted)
            } else {
                let ghost deck0 = state.pools.storm.draw_pile();
                match state.pools.storm.draw() {
                    None => vstd::pervasive::unreached(),
                    Some(val) => {
                        state.storm.move_storm(val);
                        state.pools.storm.discard(val);
                        state.pools.storm.reshuffle();
                        state.phase = Phase::SpiceBlow;
                        proof {
                            broadcast use vstd::multiset::group_multiset_axioms;

                            deck0.to_multiset_ensures();
                            assert(deck0.contains(deck0.last()));
                            assert(state.pools.storm.total() =~= old(
                                state,
                            ).pools.storm.total());
                        }
                        Ok(())
                    },
                }
            }
        },
        Phase::EndGame => Ok(()),
        Phase::Control => {
            if state.turn < u64::MAX {
                state.turn = state.turn + 1;
            }
            state.phase = Phase::Storm(StormSubPhase::Reveal);
            Ok(())
        },
        Phase::SpiceBlow => {
            state.phase = Phase::Nexus;
            Ok(())
        },
        Phase::Nexus => {
            state.phase = Phase::Bidding;
            Ok(())
        },
        Phase::Bidding => {
            state.phase = Phase::Revival;
            Ok(())
        },
        Phase::Revival => {
            state.phase = Phase::Movement;
            Ok(())
        },
        Phase::Movement => {
            state.phase = Phase::Battle;
            Ok(())
        },
        Phase::Battle => {
            state.phase = Phase::Collection;
            Ok(())
        },
        Phase::Collection => {
            state.phase = Phase::Control;
            Ok(())
        },
    }
}

/// One simulation tick's state-change stage.  While actions are pending
/// the stack owns the tick: the top action is advanced once and the phase
/// machine does not move.  Only a drained stack lets the phase machine
/// advance.  Response-stage side effects — presentation reacting to the
/// new state — belong to the caller and come strictly after this returns,
/// so phase transitions and their side effects never interleave within
/// one tick.
pub fn tick_once(
    state: &mut GameState,
    stack: &mut ActionStack,
    camera: &mut Transform,
    dt: u64,
) -> (r: Result<(), EngineError>)
    requires
        old(state).wf(),
    ensures
        final(state).wf(),
        old(stack)@.len() > 0 ==> {
            &&& r is Ok
            &&& *final(state) == *old(state)
            &&& final(stack)@ == crate::stack::tick_step(old(stack)@, *old(camera), dt).0
            &&& *final(camera) == crate::stack::tick_step(old(stack)@, *old(camera), dt).1
        },
        old(stack)@.len() == 0 ==> {
            &&& *final(camera) == *old(camera)
            &&& spec_phase_advance(*old(state), *final(state), old(stack)@, final(stack)@, r)
        },
{
    if !stack.is_empty() {
        stack.advance_top(camera, dt);
        Ok(())
    } else {
        advance_phase(state, stack)
    }
}

} // verus!
