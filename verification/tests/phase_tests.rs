use dune_engine::deck::Deck;
use dune_engine::faction::{Faction, Leader};
use dune_engine::camera::{Position, Rotation, Transform};
use dune_engine::phase::{
    advance_phase, tick_once, EngineError, GameState, Phase, ResourcePools, SetupSubPhase,
    StormSubPhase, FAMILY_ATOMICS_CARD, WEATHER_CONTROL_CARD,
};
use dune_engine::player::Player;
use dune_engine::stack::{Action, ActionStack};
use dune_engine::storm::{Storm, NUM_SECTORS};

fn rule_leaders() -> Vec<Leader> {
    vec![
        Leader { id: 1, faction: Faction::Atreides },
        Leader { id: 2, faction: Faction::BeneGesserit },
        Leader { id: 3, faction: Faction::Emperor },
        Leader { id: 4, faction: Faction::Fremen },
        Leader { id: 5, faction: Faction::Harkonnen },
        Leader { id: 6, faction: Faction::SpacingGuild },
    ]
}

/// A game state with a chosen (unshuffled) play order, for deterministic
/// tests.
fn fixed_state(factions: &[Faction], play_order: Vec<usize>) -> GameState {
    let leaders = rule_leaders();
    let players: Vec<Player> = factions.iter().map(|&f| Player::new(f, &leaders)).collect();
    GameState {
        phase: Phase::Setup(SetupSubPhase::ChooseFactions),
        turn: 0,
        active_player: 0,
        players,
        play_order,
        prediction_requested: false,
        traitors_requested: false,
        storm: Storm::new(),
        pools: ResourcePools {
            treachery: Deck::new_ordered(Vec::new()),
            traitor: Deck::new_ordered(Vec::new()),
            spice: Deck::new_ordered(Vec::new()),
            storm: Deck::new_ordered(Vec::new()),
            spice_bank: 0,
        },
    }
}

fn initial_spice(f: Faction) -> u64 {
    let (_, _, spice) = f.initial_values();
    spice
}

#[test]
fn new_game_is_set_up_for_the_first_phase() {
    let factions = vec![
        Faction::Atreides,
        Faction::BeneGesserit,
        Faction::Emperor,
        Faction::Fremen,
        Faction::Harkonnen,
        Faction::SpacingGuild,
    ];
    let state = GameState::new(
        factions.clone(),
        rule_leaders(),
        vec![100, 101, 102, 103, 104, 105, 106, 107],
        vec![200, 201],
        vec![1, 2, 3, 4, 5, 6],
    );
    assert_eq!(state.phase, Phase::Setup(SetupSubPhase::ChooseFactions));
    assert_eq!(state.turn, 0);
    assert_eq!(state.active_player, 0);
    assert_eq!(state.players.len(), 6);
    for (i, p) in state.players.iter().enumerate() {
        assert_eq!(p.faction, factions[i]);
        assert_eq!(p.total_spice, 0);
        assert!(!p.placement_scheduled);
    }
    // One traitor card per leader.
    assert_eq!(state.pools.traitor.len(), 6);
    // The play order is a permutation of the player indices.
    let mut order = state.play_order.clone();
    order.sort();
    assert_eq!(order, vec![0, 1, 2, 3, 4, 5]);
    assert_eq!(state.storm.sector, 0);
}

#[test]
fn choose_factions_reveals_only_the_active_players_pieces() {
    let mut state = fixed_state(
        &[Faction::Atreides, Faction::Emperor, Faction::SpacingGuild],
        vec![2, 0, 1],
    );
    let mut stack = ActionStack::new();
    assert_eq!(advance_phase(&mut state, &mut stack), Ok(()));
    assert_eq!(state.phase, Phase::Setup(SetupSubPhase::Prediction));
    assert!(state.players[2].pieces_visible);
    assert!(!state.players[0].pieces_visible);
    assert!(!state.players[1].pieces_visible);
    assert!(stack.is_empty());
}

#[test]
fn prediction_requests_are_pushed_once_and_only_once() {
    let mut state = fixed_state(
        &[Faction::Atreides, Faction::BeneGesserit, Faction::Emperor],
        vec![0, 1, 2],
    );
    state.phase = Phase::Setup(SetupSubPhase::Prediction);
    let mut stack = ActionStack::new();
    assert_eq!(advance_phase(&mut state, &mut stack), Ok(()));
    assert_eq!(state.phase, Phase::Setup(SetupSubPhase::Prediction));
    assert!(state.prediction_requested);
    assert_eq!(stack.len(), 1);
    assert_eq!(stack.pop(), Some(Action::MakePrediction { player: 1 }));
    // The prediction has resolved and the stack has drained: the sub-phase
    // may now advance, without pushing a duplicate request.
    assert_eq!(advance_phase(&mut state, &mut stack), Ok(()));
    assert_eq!(state.phase, Phase::Setup(SetupSubPhase::AtStart));
    assert!(stack.is_empty());
}

#[test]
fn prediction_without_bene_gesserit_pushes_nothing() {
    let mut state = fixed_state(&[Faction::Atreides, Faction::Emperor], vec![0, 1]);
    state.phase = Phase::Setup(SetupSubPhase::Prediction);
    let mut stack = ActionStack::new();
    assert_eq!(advance_phase(&mut state, &mut stack), Ok(()));
    assert!(stack.is_empty());
    assert_eq!(advance_phase(&mut state, &mut stack), Ok(()));
    assert_eq!(state.phase, Phase::Setup(SetupSubPhase::AtStart));
}

#[test]
fn at_start_credits_each_player_exactly_once() {
    let factions = [Faction::Atreides, Faction::BeneGesserit, Faction::Emperor, Faction::Fremen];
    let mut state = fixed_state(&factions, vec![0, 1, 2, 3]);
    state.phase = Phase::Setup(SetupSubPhase::AtStart);
    let mut stack = ActionStack::new();
    let mut guard = 0;
    while state.phase == Phase::Setup(SetupSubPhase::AtStart) {
        assert_eq!(advance_phase(&mut state, &mut stack), Ok(()));
        // The input collaborator resolves the placement actions.
        stack.drain();
        guard += 1;
        assert!(guard < 20, "the placement sub-phase must terminate");
    }
    assert_eq!(state.phase, Phase::Setup(SetupSubPhase::DealTraitors));
    for (i, p) in state.players.iter().enumerate() {
        assert!(p.placement_scheduled);
        assert_eq!(
            p.total_spice,
            initial_spice(factions[i]),
            "player {} must be credited exactly once",
            i
        );
    }
}

#[test]
fn bene_gesserit_first_schedules_fremen_below_it() {
    // BeneGesserit comes before Fremen in the play order, so on the
    // BeneGesserit turn both placements are pushed: Fremen's first,
    // BeneGesserit's on top of it.
    let factions = [Faction::Atreides, Faction::BeneGesserit, Faction::Emperor, Faction::Fremen];
    let mut state = fixed_state(&factions, vec![1, 0, 2, 3]);
    state.phase = Phase::Setup(SetupSubPhase::AtStart);
    let mut stack = ActionStack::new();
    // Active position 0 is the BeneGesserit player.
    assert_eq!(advance_phase(&mut state, &mut stack), Ok(()));
    assert_eq!(stack.len(), 2);
    match stack.pop() {
        Some(Action::PlaceFreeTroops { player, num, .. }) => {
            assert_eq!(player, 1);
            assert_eq!(num, 1);
        },
        other => panic!("expected the BeneGesserit placement on top, got {:?}", other),
    }
    match stack.pop() {
        Some(Action::PlaceFreeTroops { player, num, .. }) => {
            assert_eq!(player, 3);
            assert_eq!(num, 10);
        },
        other => panic!("expected the Fremen placement below, got {:?}", other),
    }
    assert_eq!(state.players[1].total_spice, initial_spice(Faction::BeneGesserit));
    assert_eq!(state.players[3].total_spice, initial_spice(Faction::Fremen));
    // On the Fremen player's own turn nothing is pushed or credited again.
    state.active_player = 3;
    assert_eq!(advance_phase(&mut state, &mut stack), Ok(()));
    assert!(stack.is_empty());
    assert_eq!(state.players[3].total_spice, initial_spice(Faction::Fremen));
}

#[test]
fn fremen_first_places_each_special_on_its_own_turn() {
    let factions = [Faction::Fremen, Faction::BeneGesserit, Faction::Atreides];
    let mut state = fixed_state(&factions, vec![0, 1, 2]);
    state.phase = Phase::Setup(SetupSubPhase::AtStart);
    let mut stack = ActionStack::new();
    // Fremen acts on its own turn.
    assert_eq!(advance_phase(&mut state, &mut stack), Ok(()));
    assert_eq!(stack.len(), 1);
    assert!(matches!(stack.pop(), Some(Action::PlaceFreeTroops { player: 0, .. })));
    assert_eq!(state.players[1].total_spice, 0, "BeneGesserit is not credited on Fremen's turn");
    // BeneGesserit acts on its own turn.
    assert_eq!(advance_phase(&mut state, &mut stack), Ok(()));
    assert_eq!(stack.len(), 1);
    assert!(matches!(stack.pop(), Some(Action::PlaceFreeTroops { player: 1, .. })));
    assert_eq!(state.players[1].total_spice, initial_spice(Faction::BeneGesserit));
}

#[test]
fn traitor_cards_are_dealt_in_four_rounds_from_the_top() {
    let mut state = fixed_state(&[Faction::Atreides, Faction::Emperor], vec![0, 1]);
    state.phase = Phase::Setup(SetupSubPhase::DealTraitors);
    state.pools.traitor = Deck::new_ordered(vec![1, 2, 3, 4, 5, 6, 7, 8]);
    let mut stack = ActionStack::new();
    assert_eq!(advance_phase(&mut state, &mut stack), Ok(()));
    assert_eq!(state.phase, Phase::Setup(SetupSubPhase::PickTraitors));
    assert_eq!(state.players[0].traitor_cards, vec![8, 6, 4, 2]);
    assert_eq!(state.players[1].traitor_cards, vec![7, 5, 3, 1]);
    assert_eq!(state.pools.traitor.len(), 0);
}

#[test]
fn traitor_deal_fails_loudly_on_a_short_deck() {
    let mut state = fixed_state(&[Faction::Atreides, Faction::Emperor], vec![0, 1]);
    state.phase = Phase::Setup(SetupSubPhase::DealTraitors);
    state.pools.traitor = Deck::new_ordered(vec![1, 2, 3, 4, 5, 6, 7]);
    let mut stack = ActionStack::new();
    assert_eq!(advance_phase(&mut state, &mut stack), Err(EngineError::DeckExhausted));
    assert_eq!(state.phase, Phase::Setup(SetupSubPhase::DealTraitors));
    assert_eq!(state.pools.traitor.len(), 7);
    assert!(state.players[0].traitor_cards.is_empty());
}

#[test]
fn pick_traitors_blocks_until_resolved() {
    let mut state = fixed_state(&[Faction::Atreides, Faction::Emperor], vec![0, 1]);
    state.phase = Phase::Setup(SetupSubPhase::PickTraitors);
    let mut stack = ActionStack::new();
    assert_eq!(advance_phase(&mut state, &mut stack), Ok(()));
    assert_eq!(stack.pop(), Some(Action::PickTraitors));
    assert_eq!(advance_phase(&mut state, &mut stack), Ok(()));
    assert_eq!(state.phase, Phase::Setup(SetupSubPhase::DealTreachery));
}

#[test]
fn treachery_deal_gives_harkonnen_a_second_card() {
    let mut state = fixed_state(&[Faction::Atreides, Faction::Harkonnen], vec![0, 1]);
    state.phase = Phase::Setup(SetupSubPhase::DealTreachery);
    state.pools.treachery = Deck::new_ordered(vec![10, 20, 30]);
    let mut stack = ActionStack::new();
    assert_eq!(advance_phase(&mut state, &mut stack), Ok(()));
    assert_eq!(state.phase, Phase::Storm(StormSubPhase::Reveal));
    assert_eq!(state.players[0].treachery_cards, vec![30]);
    assert_eq!(state.players[1].treachery_cards, vec![20, 10]);
    assert_eq!(state.pools.treachery.len(), 0);
}

#[test]
fn treachery_deal_fails_loudly_on_a_short_deck() {
    let mut state = fixed_state(&[Faction::Atreides, Faction::Harkonnen], vec![0, 1]);
    state.phase = Phase::Setup(SetupSubPhase::DealTreachery);
    state.pools.treachery = Deck::new_ordered(vec![10, 20]);
    let mut stack = ActionStack::new();
    assert_eq!(advance_phase(&mut state, &mut stack), Err(EngineError::DeckExhausted));
    assert_eq!(state.phase, Phase::Setup(SetupSubPhase::DealTreachery));
    assert!(state.players[1].treachery_cards.is_empty());
}

#[test]
fn first_turn_storm_skips_weather_control_and_rolls_a_sector() {
    let mut state = fixed_state(&[Faction::Atreides, Faction::Emperor], vec![0, 1]);
    state.phase = Phase::Storm(StormSubPhase::Reveal);
    state.turn = 0;
    let mut stack = ActionStack::new();
    assert_eq!(advance_phase(&mut state, &mut stack), Ok(()));
    assert_eq!(state.phase, Phase::Storm(StormSubPhase::MoveStorm));
    assert_eq!(advance_phase(&mut state, &mut stack), Ok(()));
    assert_eq!(state.phase, Phase::SpiceBlow);
    assert!(state.storm.sector < NUM_SECTORS);
}

#[test]
fn later_storms_prompt_cards_and_move_by_the_drawn_value() {
    let mut state = fixed_state(&[Faction::Atreides, Faction::Emperor], vec![0, 1]);
    state.phase = Phase::Storm(StormSubPhase::Reveal);
    state.turn = 1;
    state.storm.sector = 16;
    state.pools.storm = Deck::new_ordered(vec![3]);
    let mut stack = ActionStack::new();

    assert_eq!(advance_phase(&mut state, &mut stack), Ok(()));
    assert_eq!(state.phase, Phase::Storm(StormSubPhase::WeatherControl));

    assert_eq!(advance_phase(&mut state, &mut stack), Ok(()));
    assert_eq!(
        stack.pop(),
        Some(Action::PlayPrompt { treachery_card: WEATHER_CONTROL_CARD })
    );
    assert_eq!(state.phase, Phase::Storm(StormSubPhase::FamilyAtomics));

    assert_eq!(advance_phase(&mut state, &mut stack), Ok(()));
    assert_eq!(
        stack.pop(),
        Some(Action::PlayPrompt { treachery_card: FAMILY_ATOMICS_CARD })
    );
    assert_eq!(state.phase, Phase::Storm(StormSubPhase::MoveStorm));

    assert_eq!(advance_phase(&mut state, &mut stack), Ok(()));
    assert_eq!(state.phase, Phase::SpiceBlow);
    assert_eq!(state.storm.sector, (16 + 3) % NUM_SECTORS);
    // The drawn card was reshuffled back into the deck.
    assert_eq!(state.pools.storm.len(), 1);
    assert_eq!(state.pools.storm.discard_len(), 0);
}

#[test]
fn an_exhausted_storm_deck_is_fatal() {
    let mut state = fixed_state(&[Faction::Atreides, Faction::Emperor], vec![0, 1]);
    state.phase = Phase::Storm(StormSubPhase::MoveStorm);
    state.turn = 1;
    let mut stack = ActionStack::new();
    assert_eq!(advance_phase(&mut state, &mut stack), Err(EngineError::DeckExhausted));
    assert_eq!(state.phase, Phase::Storm(StormSubPhase::MoveStorm));
}

#[test]
fn stub_phases_advance_forward_and_the_turn_wraps() {
    let mut state = fixed_state(&[Faction::Atreides, Faction::Emperor], vec![0, 1]);
    state.phase = Phase::SpiceBlow;
    state.turn = 1;
    let mut stack = ActionStack::new();
    let expected = [
        Phase::Nexus,
        Phase::Bidding,
        Phase::Revival,
        Phase::Movement,
        Phase::Battle,
        Phase::Collection,
        Phase::Control,
    ];
    for phase in expected {
        assert_eq!(advance_phase(&mut state, &mut stack), Ok(()));
        assert_eq!(state.phase, phase);
    }
    assert_eq!(advance_phase(&mut state, &mut stack), Ok(()));
    assert_eq!(state.phase, Phase::Storm(StormSubPhase::Reveal));
    assert_eq!(state.turn, 2);
}

#[test]
fn a_tick_advances_the_stack_before_the_phase_machine() {
    let mut state = fixed_state(&[Faction::Atreides, Faction::Emperor], vec![0, 1]);
    state.phase = Phase::Setup(SetupSubPhase::PickTraitors);
    let mut stack = ActionStack::new();
    let mut camera = Transform {
        position: Position { x: 0, y: 0, z: 0 },
        rotation: Rotation { x: 0, y: 0, z: 0, w: 1000 },
    };
    // Stack empty: the phase machine runs and pushes the blocking pick.
    assert_eq!(tick_once(&mut state, &mut stack, &mut camera, 16), Ok(()));
    assert_eq!(stack.len(), 1);
    // Stack non-empty: the phase machine must not move; the generic
    // handler pops the action instead.
    let phase_before = state.phase;
    assert_eq!(tick_once(&mut state, &mut stack, &mut camera, 16), Ok(()));
    assert_eq!(state.phase, phase_before);
    assert!(stack.is_empty());
}

#[test]
fn end_game_is_terminal() {
    let mut state = fixed_state(&[Faction::Atreides, Faction::Emperor], vec![0, 1]);
    state.phase = Phase::EndGame;
    let mut stack = ActionStack::new();
    assert_eq!(advance_phase(&mut state, &mut stack), Ok(()));
    assert_eq!(state.phase, Phase::EndGame);
}
