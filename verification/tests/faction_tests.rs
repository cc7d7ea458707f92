use dune_engine::faction::{
    divide_spice, Faction, Leader, LOC_ARRAKEEN, LOC_CARTHAG, LOC_FALSE_WALL_SOUTH,
    LOC_FALSE_WALL_WEST, LOC_SIETCH_TABR,
};
use dune_engine::player::Player;

#[test]
fn initial_values_per_faction() {
    let (troops, locations, spice) = Faction::Atreides.initial_values();
    assert_eq!(troops, 10);
    assert_eq!(locations, vec![LOC_ARRAKEEN]);
    assert_eq!(spice, 10);

    let (troops, locations, spice) = Faction::Fremen.initial_values();
    assert_eq!(troops, 10);
    assert_eq!(locations, vec![LOC_SIETCH_TABR, LOC_FALSE_WALL_SOUTH, LOC_FALSE_WALL_WEST]);
    assert_eq!(spice, 3);

    let (troops, locations, spice) = Faction::Emperor.initial_values();
    assert_eq!(troops, 0);
    assert!(locations.is_empty());
    assert_eq!(spice, 10);

    let (_, locations, spice) = Faction::Harkonnen.initial_values();
    assert_eq!(locations, vec![LOC_CARTHAG]);
    assert_eq!(spice, 10);
}

#[test]
fn divide_spice_greedy_denominations() {
    assert_eq!(divide_spice(0), (0, 0, 0, 0));
    assert_eq!(divide_spice(10), (1, 0, 0, 0));
    assert_eq!(divide_spice(9), (0, 1, 2, 0));
    assert_eq!(divide_spice(17), (1, 1, 1, 0));
    assert_eq!(divide_spice(3), (0, 0, 1, 1));
    for spice in 0..200 {
        let (tens, fives, twos, ones) = divide_spice(spice);
        assert_eq!(10 * tens + 5 * fives + 2 * twos + ones, spice);
    }
}

#[test]
fn new_player_owns_only_its_factions_leaders() {
    let leaders = vec![
        Leader { id: 1, faction: Faction::Atreides },
        Leader { id: 2, faction: Faction::Harkonnen },
        Leader { id: 3, faction: Faction::Atreides },
        Leader { id: 4, faction: Faction::Fremen },
    ];
    let p = Player::new(Faction::Atreides, &leaders);
    assert_eq!(p.faction, Faction::Atreides);
    assert_eq!(p.leaders, vec![1, 3]);
    assert_eq!(p.total_spice, 0);
    assert!(!p.placement_scheduled);
    assert!(p.traitor_cards.is_empty());
    assert!(p.treachery_cards.is_empty());
}
