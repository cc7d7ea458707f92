use dune_engine::deck::Deck;
use dune_engine::storm::{Storm, NUM_SECTORS};

#[test]
fn storm_wraps_around_the_board() {
    let mut storm = Storm::new();
    assert_eq!(storm.sector, 0);
    storm.move_storm(5);
    assert_eq!(storm.sector, 5);
    storm.move_storm(6);
    assert_eq!(storm.sector, 11);
    storm.move_storm(6);
    assert_eq!(storm.sector, 17);
    storm.move_storm(1);
    assert_eq!(storm.sector, 0);
}

#[test]
fn storm_move_is_addition_modulo_sectors() {
    let mut storm = Storm { sector: 10 };
    storm.move_storm(20);
    assert_eq!(storm.sector, (10 + 20) % NUM_SECTORS);
    // Repeated application never leaves the board.
    for v in 0..100 {
        storm.move_storm(v);
        assert!(storm.sector < NUM_SECTORS);
    }
}

#[test]
fn randomized_storm_lands_on_a_real_sector() {
    for _ in 0..50 {
        let mut storm = Storm::new();
        storm.randomize();
        assert!(storm.sector < NUM_SECTORS);
    }
}

#[test]
fn ordered_deck_draws_from_the_end() {
    let mut deck = Deck::new_ordered(vec![1, 2, 3]);
    assert_eq!(deck.len(), 3);
    assert_eq!(deck.draw(), Some(3));
    assert_eq!(deck.draw(), Some(2));
    assert_eq!(deck.draw(), Some(1));
    assert_eq!(deck.draw(), None);
}

#[test]
fn deck_conserves_cards_across_draw_discard_reshuffle() {
    let mut deck = Deck::new_ordered(vec![4, 8, 15, 16, 23, 42]);
    let a = deck.draw().unwrap();
    let b = deck.draw().unwrap();
    deck.discard(a);
    deck.discard(b);
    assert_eq!(deck.len(), 4);
    assert_eq!(deck.discard_len(), 2);
    deck.reshuffle();
    assert_eq!(deck.discard_len(), 0);
    assert_eq!(deck.len(), 6);
    let mut cards = Vec::new();
    while let Some(c) = deck.draw() {
        cards.push(c);
    }
    cards.sort();
    assert_eq!(cards, vec![4, 8, 15, 16, 23, 42]);
}

#[test]
fn shuffled_deck_holds_the_same_cards() {
    let mut deck = Deck::new(vec![7, 7, 9, 11]);
    assert_eq!(deck.len(), 4);
    let mut cards = Vec::new();
    while let Some(c) = deck.draw() {
        cards.push(c);
    }
    cards.sort();
    assert_eq!(cards, vec![7, 7, 9, 11]);
}
