use forbidden_island::structs::board::{Board, ISLAND_COORDS};
use forbidden_island::structs::cards::adventurer::{Adventurer, AdventurerCard, AdventurerCardType};
use forbidden_island::structs::cards::flood::FloodCard;
use forbidden_island::structs::cards::island::{IslandCard, IslandCardName, IslandCardState};
use forbidden_island::structs::cards::treasure::{
    SpecialActionType, TreasureCard, TreasureCardType, TreasureType,
};
use forbidden_island::structs::cards::{Card, Deck};
use forbidden_island::structs::game::chooser::{Chooser, ScriptedChooser};
use forbidden_island::structs::game::moves::{Action, MoveType};
use forbidden_island::structs::game::play::{Ending, Outcome};
use forbidden_island::structs::game::{Game, TreasureSet};
use rand::SeedableRng;
use rand_chacha::ChaCha20Rng;

/// A decision source that picks by a simple congruential sequence and
/// checks that it is never asked about nothing.
struct Dice {
    state: u64,
    asked: usize,
}

impl Chooser for Dice {
    fn decide(&mut self, _stage: Action, options: &Vec<String>) -> usize {
        assert!(!options.is_empty());
        self.state = self
            .state
            .wrapping_mul(6364136223846793005)
            .wrapping_add(1442695040888963407);
        self.asked += 1;
        ((self.state >> 33) as usize) % options.len()
    }
}

/// A decision source that records what it was asked and takes the first option.
struct Recorder {
    stages: Vec<Action>,
    options: Vec<Vec<String>>,
}

impl Chooser for Recorder {
    fn decide(&mut self, stage: Action, options: &Vec<String>) -> usize {
        self.stages.push(stage);
        self.options.push(options.clone());
        0
    }
}

fn first() -> ScriptedChooser {
    ScriptedChooser::new(vec![0])
}

/// A game on the island laid out in the fixed order of tiles, nothing
/// flooded, nothing dealt.
fn plain_game(roles: &[AdventurerCardType], water_level: usize) -> Game {
    let mut island = IslandCard::get_deck();
    let board = Board::new(&mut island);
    let adventurers = roles
        .iter()
        .map(|role| Adventurer::new(AdventurerCard::new(role), &board))
        .collect();
    Game {
        rng: ChaCha20Rng::seed_from_u64(1),
        treasure_deck: TreasureCard::get_deck(),
        treasure_discard_deck: Deck::new(),
        flood_deck: FloodCard::get_deck(),
        flood_discard_deck: Deck::new(),
        adventurers,
        board,
        water_level,
        captured_treasures: TreasureSet::new(),
        used_pilot_move: false,
    }
}

/// Moves a card that shows `kind` from the treasure deck to the hand of `who`.
fn hand_over(game: &mut Game, who: usize, kind: TreasureCardType) {
    let at = game
        .treasure_deck
        .cards
        .iter()
        .position(|card| card.get_type() == kind)
        .unwrap();
    let card = game.treasure_deck.pop_card(at).unwrap();
    game.adventurers[who].receive_card(card);
}

/// Floods the dry tile `name`; its flood card goes to the discard pile.
fn flood(game: &mut Game, name: IslandCardName) {
    let at = game
        .flood_deck
        .cards
        .iter()
        .position(|card| card.get_type() == name)
        .unwrap();
    let card = game.flood_deck.pop_card(at).unwrap();
    assert!(!game.board.sink(&name));
    game.flood_discard_deck.insert(card);
}

/// Sinks the dry tile `name`; its flood card leaves the game.
fn sink(game: &mut Game, name: IslandCardName) {
    let at = game
        .flood_deck
        .cards
        .iter()
        .position(|card| card.get_type() == name)
        .unwrap();
    game.flood_deck.pop_card(at).unwrap();
    assert!(!game.board.sink(&name));
    assert!(game.board.sink(&name));
}

fn treasure_total(game: &Game) -> usize {
    let hands: usize = game.adventurers.iter().map(|a| a.get_card_count()).sum();
    game.treasure_deck.len() + game.treasure_discard_deck.len() + hands + 4 * game.captured_treasures.len()
}

fn flood_total(game: &Game) -> usize {
    let sunk = game
        .board
        .cells
        .iter()
        .filter(|tile| tile.state == IslandCardState::Sunk)
        .count();
    game.flood_deck.len() + game.flood_discard_deck.len() + sunk
}

fn snapshot(game: &Game) -> String {
    format!(
        "{:?} {:?} {:?} {:?} {:?} {:?} {:?} {:?} {:?}",
        game.treasure_deck,
        game.treasure_discard_deck,
        game.flood_deck,
        game.flood_discard_deck,
        game.adventurers,
        game.board,
        game.water_level,
        game.captured_treasures,
        game.used_pilot_move
    )
}

fn card(kind: TreasureCardType) -> TreasureCard {
    TreasureCard::new(&kind)
}

const FIRE: TreasureCardType = TreasureCardType::Treasure(TreasureType::Fire);
const EARTH: TreasureCardType = TreasureCardType::Treasure(TreasureType::Earth);

#[test]
fn new_game_is_set_up() {
    let game = Game::new(ChaCha20Rng::seed_from_u64(7), 4, 2);
    assert_eq!(game.adventurers.len(), 4);
    for adventurer in &game.adventurers {
        assert_eq!(adventurer.get_card_count(), 2);
        assert!(!adventurer.get_hand().contains(&card(TreasureCardType::WaterRise)));
        let start = AdventurerCard::new(adventurer.get_type()).get_start_card();
        assert_eq!(*adventurer.get_pos(), game.board.get_location(&start));
    }
    assert_eq!(game.water_level, 2);
    assert_eq!(game.treasure_deck.len(), 20);
    assert_eq!(game.treasure_discard_deck.len(), 0);
    assert_eq!(game.flood_deck.len(), 18);
    assert_eq!(game.flood_discard_deck.len(), 6);
    assert_eq!(game.captured_treasures.len(), 0);
    assert!(!game.used_pilot_move);
    for name in IslandCardName::iter() {
        let flooded = game.flood_discard_deck.contains(&FloodCard::new(name));
        let expected = if flooded {
            IslandCardState::Flooded
        } else {
            IslandCardState::Normal
        };
        assert_eq!(*game.board.get_by_type(&name).state(), expected);
    }
    assert_eq!(treasure_total(&game), 28);
    assert_eq!(flood_total(&game), 24);
}

#[test]
fn tiles_lie_on_distinct_places() {
    for seed in 0..20 {
        let game = Game::new(ChaCha20Rng::seed_from_u64(seed), 2, 0);
        let mut places: Vec<(usize, usize)> = IslandCardName::iter()
            .iter()
            .map(|name| game.board.get_location(name))
            .collect();
        places.sort();
        places.dedup();
        assert_eq!(places.len(), 24);
        let mut all = ISLAND_COORDS.to_vec();
        all.sort();
        assert_eq!(places, all);
        for name in IslandCardName::iter() {
            let place = game.board.get_location(&name);
            assert_eq!(game.board.get_card(&place).unwrap().name(), name);
        }
    }
}

#[test]
fn shuffle_keeps_the_cards() {
    let mut deck = TreasureCard::get_deck();
    let printed = deck.cards.clone();
    let mut rng = ChaCha20Rng::seed_from_u64(3);
    deck.shuffle(&mut rng);
    assert_ne!(deck.cards, printed);
    let mut before: Vec<u8> = printed.iter().map(|c| c.get_type().code()).collect();
    let mut after: Vec<u8> = deck.cards.iter().map(|c| c.get_type().code()).collect();
    before.sort();
    after.sort();
    assert_eq!(before, after);
}

#[test]
fn same_seed_same_game() {
    let script = vec![0, 3, 1, 4, 1, 5, 9, 2, 6, 5, 3, 5, 8, 9, 7];
    let mut one = Game::new(ChaCha20Rng::seed_from_u64(42), 4, 2);
    let mut two = Game::new(ChaCha20Rng::seed_from_u64(42), 4, 2);
    assert_eq!(snapshot(&one), snapshot(&two));
    let mut left = ScriptedChooser::new(script.clone());
    let mut right = ScriptedChooser::new(script);
    let mut who = 0;
    for _ in 0..200 {
        let a = one.play_turn(who, &mut left);
        let b = two.play_turn(who, &mut right);
        assert_eq!(a, b);
        assert_eq!(snapshot(&one), snapshot(&two));
        if a.is_some() {
            break;
        }
        who = (who + 1) % 4;
    }
    let mut three = Game::new(ChaCha20Rng::seed_from_u64(42), 4, 2);
    let mut four = Game::new(ChaCha20Rng::seed_from_u64(42), 4, 2);
    let first_outcome = three.play(&mut ScriptedChooser::new(vec![2, 0, 1]));
    let second_outcome = four.play(&mut ScriptedChooser::new(vec![2, 0, 1]));
    assert_eq!(first_outcome, second_outcome);
    assert_eq!(first_outcome.summary(), second_outcome.summary());
    assert_eq!(snapshot(&three), snapshot(&four));
}

#[test]
fn games_come_to_an_end_and_lose_no_card() {
    for seed in 0..60 {
        let mut game = Game::new(ChaCha20Rng::seed_from_u64(seed), 4, 2);
        let mut dice = Dice {
            state: seed,
            asked: 0,
        };
        let outcome = game.play(&mut dice);
        assert_ne!(outcome.ending, Ending::Unfinished);
        assert!(dice.asked > 0);
        assert_eq!(treasure_total(&game), 28);
        assert_eq!(flood_total(&game), 24);
        assert!(game.water_level <= 9);
        match outcome.ending {
            Ending::Win => assert!(game.is_won()),
            Ending::WaterTooHigh => assert_eq!(game.water_level, 9),
            Ending::ExtractionSunk => assert_eq!(
                *game.board.get_by_type(&IslandCardName::FoolsLanding).state(),
                IslandCardState::Sunk
            ),
            Ending::TreasureUnreachable(kind) => assert!(game.is_unreachable(&kind)),
            Ending::CannotEvacuate(role) => {
                let who = game.find_adventurer(&role).unwrap();
                assert!(game.evacuation_options(who).is_empty());
            }
            Ending::Unfinished => unreachable!(),
        }
    }
}

#[test]
fn cards_are_conserved_turn_by_turn() {
    let mut game = Game::new(ChaCha20Rng::seed_from_u64(11), 3, 1);
    let mut dice = Dice {
        state: 99,
        asked: 0,
    };
    let mut who = 0;
    for _ in 0..300 {
        let end = game.play_turn(who, &mut dice);
        assert_eq!(treasure_total(&game), 28);
        assert_eq!(flood_total(&game), 24);
        for tile in &game.board.cells {
            let gone = tile.state == IslandCardState::Sunk;
            assert_eq!(
                !gone,
                game.flood_deck.contains(&FloodCard::new(tile.name))
                    || game.flood_discard_deck.contains(&FloodCard::new(tile.name))
            );
        }
        if end.is_some() {
            return;
        }
        assert!(game.adventurers[who].get_card_count() <= 5);
        who = (who + 1) % 3;
    }
    panic!("the game did not end");
}

#[test]
fn win_is_reported() {
    let roles = [AdventurerCardType::Pilot, AdventurerCardType::Diver];
    let mut game = plain_game(&roles, 2);
    let landing = game.board.get_location(&IslandCardName::FoolsLanding);
    for kind in TreasureType::all() {
        game.captured_treasures.insert(kind);
        for _ in 0..4 {
            let at = game
                .treasure_deck
                .cards
                .iter()
                .position(|c| c.get_type() == TreasureCardType::Treasure(kind))
                .unwrap();
            game.treasure_deck.pop_card(at);
        }
    }
    game.adventurers[1].move_to(landing);
    assert!(!game.is_won());
    hand_over(&mut game, 1, TreasureCardType::HelicopterLift);
    assert!(game.is_won());
    let before = snapshot(&game);
    let mut recorder = Recorder {
        stages: vec![],
        options: vec![],
    };
    assert_eq!(game.play_turn(0, &mut recorder), Some(Ending::Win));
    assert_eq!(snapshot(&game), before);
    let outcome = game.play(&mut recorder);
    assert!(recorder.stages.is_empty());
    assert_eq!(
        outcome,
        Outcome {
            ending: Ending::Win,
            rounds: 0
        }
    );
    assert!(outcome.won());
    let (won, reason, rounds) = outcome.summary();
    assert!(won);
    assert_eq!(
        reason,
        "You captured all 4 treasures and used a helicopter lift card to get off fools landing, you win!"
    );
    assert_eq!(rounds, 0);
}

#[test]
fn no_win_away_from_the_landing_site() {
    let roles = [AdventurerCardType::Pilot, AdventurerCardType::Diver];
    let mut game = plain_game(&roles, 2);
    for kind in TreasureType::all() {
        game.captured_treasures.insert(kind);
    }
    hand_over(&mut game, 0, TreasureCardType::HelicopterLift);
    assert!(!game.is_won());
    let landing = game.board.get_location(&IslandCardName::FoolsLanding);
    game.adventurers[1].move_to(landing);
    assert!(game.is_won());
    game.captured_treasures = TreasureSet::new();
    game.captured_treasures.insert(TreasureType::Earth);
    game.captured_treasures.insert(TreasureType::Wind);
    game.captured_treasures.insert(TreasureType::Fire);
    assert!(!game.is_won());
}

#[test]
fn three_water_rises_lose_the_game() {
    let mut game = plain_game(&[AdventurerCardType::Engineer], 6);
    flood(&mut game, IslandCardName::Watchtower);
    let rises: Vec<TreasureCard> = (0..3).map(|_| card(TreasureCardType::WaterRise)).collect();
    let others: Vec<TreasureCard> = game
        .treasure_deck
        .cards
        .iter()
        .filter(|c| c.get_type() != TreasureCardType::WaterRise)
        .copied()
        .collect();
    game.treasure_deck = Deck::from(&[rises, others].concat());
    assert_eq!(game.flood_phase(&mut first()), None);
    let floods_before = flood_total(&game);
    assert_eq!(game.draw_treasure_card(0), Some(card(TreasureCardType::WaterRise)));
    assert_eq!(game.water_level, 7);
    assert_eq!(game.flood_discard_deck.len(), 0);
    assert_eq!(
        game.draw_treasure_cards(0),
        (
            Some(card(TreasureCardType::WaterRise)),
            Some(card(TreasureCardType::WaterRise))
        )
    );
    assert_eq!(game.water_level, 9);
    assert_eq!(game.adventurers[0].get_card_count(), 0);
    assert_eq!(game.treasure_discard_deck.len(), 3);
    let before = snapshot(&game);
    assert_eq!(game.flood_phase(&mut first()), Some(Ending::WaterTooHigh));
    assert_eq!(snapshot(&game), before);
    assert_eq!(flood_total(&game), floods_before);
    assert_eq!(Ending::WaterTooHigh.reason(), "Water level too high, you lose!");
}

#[test]
fn water_rise_puts_the_discarded_floods_back_on_top() {
    let mut game = plain_game(&[AdventurerCardType::Engineer], 0);
    flood(&mut game, IslandCardName::Watchtower);
    flood(&mut game, IslandCardName::GoldGate);
    flood(&mut game, IslandCardName::CoralPalace);
    let rest = game.flood_deck.cards.clone();
    game.rise_water();
    assert_eq!(game.water_level, 1);
    assert_eq!(game.flood_discard_deck.len(), 0);
    assert_eq!(game.flood_deck.len(), 24);
    assert_eq!(game.flood_deck.cards[3..], rest[..]);
    let mut top: Vec<IslandCardName> = game.flood_deck.cards[..3].iter().map(|c| c.get_type()).collect();
    top.sort_by_key(|name| name.index());
    assert_eq!(
        top,
        vec![
            IslandCardName::Watchtower,
            IslandCardName::GoldGate,
            IslandCardName::CoralPalace
        ]
    );
    game.water_level = 9;
    game.rise_water();
    assert_eq!(game.water_level, 9);
}

#[test]
fn sunk_treasure_tiles_lose_the_game() {
    let mut game = plain_game(&[AdventurerCardType::Engineer], 0);
    assert_eq!(game.flood_loss(), None);
    sink(&mut game, IslandCardName::CaveOfEmbers);
    assert_eq!(game.flood_loss(), None);
    assert!(!game.is_unreachable(&TreasureType::Fire));
    flood(&mut game, IslandCardName::CaveOfShadows);
    let card = game.flood_discard_deck.pop_next().unwrap();
    game.flood_deck.stack_front(&mut Deck::from(&[card]));
    assert_eq!(game.flood_phase(&mut first()), Some(Ending::TreasureUnreachable(TreasureType::Fire)));
    assert!(game.is_unreachable(&TreasureType::Fire));
    assert!(!game.is_unreachable(&TreasureType::Earth));
    assert_eq!(game.flood_loss(), Some(Ending::TreasureUnreachable(TreasureType::Fire)));
    assert_eq!(flood_total(&game), 24);
    assert_eq!(
        Ending::TreasureUnreachable(TreasureType::Fire).reason(),
        "Cannot retrieve The Crystal of Fire, you lose!"
    );
    game.captured_treasures.insert(TreasureType::Fire);
    assert_eq!(game.flood_loss(), None);
}

#[test]
fn sunk_landing_site_loses_the_game() {
    let mut game = plain_game(&[AdventurerCardType::Engineer], 0);
    sink(&mut game, IslandCardName::CaveOfEmbers);
    sink(&mut game, IslandCardName::CaveOfShadows);
    sink(&mut game, IslandCardName::FoolsLanding);
    assert_eq!(game.flood_loss(), Some(Ending::ExtractionSunk));
    assert_eq!(Ending::ExtractionSunk.reason(), "Fools landing sinks, you lose!");
}

#[test]
fn flood_cards_drawn_by_water_level() {
    let expected = [2, 2, 3, 3, 3, 4, 4, 5, 5];
    for (level, count) in expected.iter().enumerate() {
        let game = plain_game(&[AdventurerCardType::Engineer], level);
        assert_eq!(game.flood_draw_count(), *count);
    }
    let mut game = plain_game(&[AdventurerCardType::Engineer], 3);
    assert_eq!(game.flood_phase(&mut first()), None);
    assert_eq!(game.flood_deck.len(), 21);
    assert_eq!(game.flood_discard_deck.len(), 3);
    for name in [
        IslandCardName::CliffsOfAbandon,
        IslandCardName::Watchtower,
        IslandCardName::PhantomRock,
    ] {
        assert_eq!(*game.board.get_by_type(&name).state(), IslandCardState::Flooded);
    }
}

#[test]
fn flood_card_sinks_a_flooded_tile_and_leaves() {
    let mut game = plain_game(&[AdventurerCardType::Engineer], 0);
    assert_eq!(game.draw_flood_card(), (IslandCardName::CliffsOfAbandon, false));
    assert_eq!(game.flood_discard_deck.cards, vec![FloodCard::new(IslandCardName::CliffsOfAbandon)]);
    let mut pile = Deck::from(&[game.flood_discard_deck.pop_next().unwrap()]);
    game.flood_deck.stack_front(&mut pile);
    assert_eq!(game.draw_flood_card(), (IslandCardName::CliffsOfAbandon, true));
    assert_eq!(game.flood_discard_deck.len(), 0);
    assert_eq!(game.flood_deck.len(), 23);
    assert_eq!(flood_total(&game), 24);
}

#[test]
fn flood_deck_is_restocked_when_it_runs_out() {
    let mut game = plain_game(&[AdventurerCardType::Engineer], 0);
    while game.flood_deck.len() > 1 {
        let card = game.flood_deck.pop_next().unwrap();
        game.board.sink(&card.get_type());
        game.flood_discard_deck.insert(card);
    }
    assert_eq!(game.flood_discard_deck.len(), 23);
    assert_eq!(game.draw_flood_card(), (IslandCardName::CoralPalace, false));
    assert_eq!(game.flood_discard_deck.len(), 0);
    assert_eq!(game.flood_deck.len(), 24);
}

#[test]
fn capture_needs_four_cards() {
    let mut game = plain_game(&[AdventurerCardType::Engineer], 0);
    let cave = game.board.get_location(&IslandCardName::CaveOfEmbers);
    game.adventurers[0].move_to(cave);
    for _ in 0..3 {
        hand_over(&mut game, 0, FIRE);
    }
    hand_over(&mut game, 0, EARTH);
    assert_eq!(game.count_in_hand(0, &card(FIRE)), 3);
    assert_eq!(game.capturable(0), None);
    assert!(!game
        .initial_options(0)
        .contains(&Action::CaptureTreasure(TreasureType::Fire)));
    hand_over(&mut game, 0, FIRE);
    assert_eq!(game.capturable(0), Some(TreasureType::Fire));
    assert!(game
        .initial_options(0)
        .contains(&Action::CaptureTreasure(TreasureType::Fire)));
    assert!(game.take_action(0, Action::CaptureTreasure(TreasureType::Fire), &mut first()));
    assert_eq!(game.count_in_hand(0, &card(FIRE)), 0);
    assert_eq!(game.adventurers[0].get_hand().cards, vec![card(EARTH)]);
    assert!(game.captured_treasures.contains(&TreasureType::Fire));
    assert_eq!(game.captured_treasures.len(), 1);
    assert_eq!(treasure_total(&game), 28);
    assert_eq!(game.capturable(0), None);
}

#[test]
fn capture_takes_the_first_four_of_five() {
    let mut game = plain_game(&[AdventurerCardType::Engineer], 0);
    let cave = game.board.get_location(&IslandCardName::CaveOfShadows);
    game.adventurers[0].move_to(cave);
    hand_over(&mut game, 0, FIRE);
    hand_over(&mut game, 0, TreasureCardType::Sandbag);
    for _ in 0..4 {
        hand_over(&mut game, 0, FIRE);
    }
    game.capture_treasure(0, TreasureType::Fire);
    assert_eq!(
        game.adventurers[0].get_hand().cards,
        vec![card(TreasureCardType::Sandbag), card(FIRE)]
    );
}

#[test]
fn no_capture_on_other_tiles_or_twice() {
    let mut game = plain_game(&[AdventurerCardType::Engineer], 0);
    for _ in 0..4 {
        hand_over(&mut game, 0, FIRE);
    }
    assert_eq!(game.capturable(0), None);
    let temple = game.board.get_location(&IslandCardName::TempleOfTheSun);
    game.adventurers[0].move_to(temple);
    assert_eq!(game.capturable(0), None);
    let cave = game.board.get_location(&IslandCardName::CaveOfEmbers);
    game.adventurers[0].move_to(cave);
    assert_eq!(game.capturable(0), Some(TreasureType::Fire));
    game.captured_treasures.insert(TreasureType::Fire);
    assert_eq!(game.capturable(0), None);
}

#[test]
fn moves_by_role() {
    let roles = [
        AdventurerCardType::Engineer,
        AdventurerCardType::Explorer,
        AdventurerCardType::Pilot,
        AdventurerCardType::Diver,
    ];
    let mut game = plain_game(&roles, 0);
    assert_eq!(*game.adventurers[0].get_pos(), (5, 2));
    assert_eq!(game.get_moves(&game.adventurers[0]), vec![(5, 3), (4, 2)]);
    assert_eq!(*game.adventurers[1].get_pos(), (2, 3));
    assert_eq!(
        game.get_moves(&game.adventurers[1]),
        vec![(3, 4), (2, 4), (1, 4), (3, 3), (1, 3), (3, 2), (2, 2), (1, 2)]
    );
    let flights = game.get_moves(&game.adventurers[2]);
    assert_eq!(flights.len(), 23);
    assert!(!flights.contains(&(4, 2)));
    sink(&mut game, IslandCardName::DunesOfDeception);
    assert_eq!(game.get_moves(&game.adventurers[2]).len(), 22);
    assert_eq!(*game.adventurers[3].get_pos(), (3, 3));
    assert_eq!(
        game.get_moves(&game.adventurers[3]),
        vec![(3, 4), (2, 3), (4, 3), (3, 2)]
    );
    game.adventurers[0].move_to((3, 3));
    assert_eq!(game.get_moves(&game.adventurers[0]), vec![(3, 4), (2, 3), (4, 3)]);
    assert!(game.can_move(&game.adventurers[0]));
}

#[test]
fn the_pilot_flies_once_a_turn() {
    let mut game = plain_game(&[AdventurerCardType::Pilot], 0);
    let options = game.move_options(0);
    assert_eq!(options.len(), 23);
    assert_eq!(options[0], MoveType::PilotMove((2, 0)));
    assert!(options.contains(&MoveType::Move((4, 3))));
    assert!(options.contains(&MoveType::Move((3, 2))));
    assert!(options.contains(&MoveType::PilotMove((3, 3))));
    assert_eq!(game.move_label(0, &MoveType::PilotMove((2, 0))), "Use Pilot skill to move to Cliffs Of Abandon");
    assert_eq!(game.move_label(0, &MoveType::Move((4, 3))), "Move Pilot to Temple Of The Sun");
    game.move_adventurer(0, &mut first());
    assert_eq!(*game.adventurers[0].get_pos(), (2, 0));
    assert!(game.used_pilot_move);
    assert_eq!(game.move_options(0), vec![MoveType::Move((2, 1)), MoveType::Move((3, 0))]);
    assert_eq!(game.play_turn(0, &mut ScriptedChooser::new(vec![1, 0])), None);
    assert!(!game.used_pilot_move);
}

#[test]
fn the_navigator_sends_the_others() {
    let roles = [AdventurerCardType::Navigator, AdventurerCardType::Engineer];
    let mut game = plain_game(&roles, 0);
    let options = game.move_options(0);
    assert_eq!(
        options,
        vec![
            MoveType::Move((1, 3)),
            MoveType::Move((0, 2)),
            MoveType::NavigatorMove(AdventurerCardType::Engineer, (5, 3)),
            MoveType::NavigatorMove(AdventurerCardType::Engineer, (4, 2)),
        ]
    );
    assert_eq!(
        game.move_label(0, &options[3]),
        "Move Engineer to Fools Landing"
    );
    game.move_adventurer(0, &mut ScriptedChooser::new(vec![3]));
    assert_eq!(*game.adventurers[1].get_pos(), (4, 2));
    assert_eq!(*game.adventurers[0].get_pos(), (0, 3));
    assert_eq!(game.move_options(1).len(), 4);
}

#[test]
fn shoring_up_and_the_engineer() {
    let roles = [AdventurerCardType::Engineer, AdventurerCardType::Explorer];
    let mut game = plain_game(&roles, 0);
    assert!(!game.can_shore_up(&AdventurerCardType::Engineer, &(5, 2)));
    assert!(!game.initial_options(0).contains(&Action::ShoreUp));
    flood(&mut game, IslandCardName::BronzeGate);
    flood(&mut game, IslandCardName::FoolsLanding);
    flood(&mut game, IslandCardName::TempleOfTheMoon);
    flood(&mut game, IslandCardName::SilverGate);
    assert_eq!(
        game.get_shorable_by_adventurer(&AdventurerCardType::Engineer, &(5, 2)),
        vec![(5, 3), (4, 2), (5, 2)]
    );
    assert_eq!(
        game.get_shorable_by_adventurer(&AdventurerCardType::Explorer, &(2, 3)),
        vec![(1, 3)]
    );
    assert!(game.initial_options(0).contains(&Action::ShoreUp));
    let mut recorder = Recorder {
        stages: vec![],
        options: vec![],
    };
    game.shore_up(0, &mut recorder);
    assert_eq!(recorder.stages, vec![Action::ShoreUp, Action::ShoreUp, Action::ShoreUp]);
    assert_eq!(
        recorder.options[0],
        vec!["Shore up Temple Of The Moon", "Shore up Fools Landing", "Shore up Bronze Gate"]
    );
    assert_eq!(
        recorder.options[1],
        vec!["Use engineer skill to shore up another tile", "End action"]
    );
    assert_eq!(
        *game.board.get_by_type(&IslandCardName::TempleOfTheMoon).state(),
        IslandCardState::Normal
    );
    assert_eq!(
        *game.board.get_by_type(&IslandCardName::FoolsLanding).state(),
        IslandCardState::Normal
    );
    assert_eq!(
        *game.board.get_by_type(&IslandCardName::BronzeGate).state(),
        IslandCardState::Flooded
    );
    game.shore_up(1, &mut first());
    assert_eq!(
        *game.board.get_by_type(&IslandCardName::SilverGate).state(),
        IslandCardState::Normal
    );
    assert_eq!(flood_total(&game), 24);
}

#[test]
fn gifts_name_each_different_card_once() {
    let roles = [
        AdventurerCardType::Engineer,
        AdventurerCardType::Messenger,
        AdventurerCardType::Diver,
    ];
    let mut game = plain_game(&roles, 0);
    hand_over(&mut game, 0, EARTH);
    hand_over(&mut game, 0, EARTH);
    hand_over(&mut game, 0, TreasureCardType::Sandbag);
    hand_over(&mut game, 0, EARTH);
    hand_over(&mut game, 0, FIRE);
    assert!(game.give_options(0).is_empty());
    assert!(!game.initial_options(0).contains(&Action::GiveCard));
    game.adventurers[2].move_to((5, 2));
    assert_eq!(
        game.give_options(0),
        vec![
            (0, AdventurerCardType::Diver),
            (2, AdventurerCardType::Diver),
            (4, AdventurerCardType::Diver)
        ]
    );
    assert_eq!(
        game.give_label(0, &(2, AdventurerCardType::Diver)),
        "Give Sandbag card to Diver"
    );
    game.give_card(0, &mut ScriptedChooser::new(vec![1]));
    assert_eq!(
        game.adventurers[0].get_hand().cards,
        vec![card(EARTH), card(EARTH), card(EARTH), card(FIRE)]
    );
    assert_eq!(game.adventurers[2].get_hand().cards, vec![card(TreasureCardType::Sandbag)]);
    hand_over(&mut game, 1, FIRE);
    assert_eq!(
        game.give_options(1),
        vec![(0, AdventurerCardType::Engineer), (0, AdventurerCardType::Diver)]
    );
    assert_eq!(treasure_total(&game), 28);
}

#[test]
fn lifts_by_group_size_place_and_party() {
    let roles = [
        AdventurerCardType::Explorer,
        AdventurerCardType::Messenger,
        AdventurerCardType::Diver,
    ];
    let mut game = plain_game(&roles, 0);
    game.adventurers[2].move_to((2, 3));
    let options = game.helicopter_options();
    assert_eq!(options.len(), 92);
    assert_eq!(options[0], ((2, 0), vec![1]));
    assert_eq!(options[1], ((3, 0), vec![1]));
    assert_eq!(options[22], ((3, 5), vec![1]));
    assert_eq!(options[23], ((2, 0), vec![0]));
    assert_eq!(options[24], ((2, 0), vec![2]));
    assert_eq!(options[25], ((3, 0), vec![0]));
    assert_eq!(options[69], ((2, 0), vec![0, 2]));
    assert_eq!(options[91], ((3, 5), vec![0, 2]));
    for (place, party) in &options {
        assert!(!party.is_empty());
        for who in party {
            assert_ne!(game.adventurers[*who].get_pos(), place);
        }
    }
    assert_eq!(game.lift_label(&(2, 0), &vec![0, 2]), "Move Explorer, Diver to Cliffs Of Abandon");
    sink(&mut game, IslandCardName::CliffsOfAbandon);
    assert_eq!(game.helicopter_options().len(), 88);
    assert_eq!(game.helicopter_options()[66], ((3, 0), vec![0, 2]));
    game.helicopter_lift(&mut ScriptedChooser::new(vec![66]));
    assert_eq!(*game.adventurers[0].get_pos(), (3, 0));
    assert_eq!(*game.adventurers[2].get_pos(), (3, 0));
    assert_eq!(*game.adventurers[1].get_pos(), (1, 3));
}

#[test]
fn special_cards_are_played_from_any_hand() {
    let roles = [AdventurerCardType::Engineer, AdventurerCardType::Diver];
    let mut game = plain_game(&roles, 0);
    hand_over(&mut game, 1, EARTH);
    hand_over(&mut game, 1, TreasureCardType::Sandbag);
    assert!(game.play_options().is_empty());
    assert!(!game.can_play_special());
    assert!(!game.initial_options(0).contains(&Action::PlayActionCard));
    hand_over(&mut game, 0, TreasureCardType::HelicopterLift);
    assert_eq!(game.play_options(), vec![(0, 0, SpecialActionType::HelicopterLift)]);
    flood(&mut game, IslandCardName::CoralPalace);
    flood(&mut game, IslandCardName::Watchtower);
    assert_eq!(
        game.play_options(),
        vec![
            (0, 0, SpecialActionType::HelicopterLift),
            (1, 1, SpecialActionType::Sandbag)
        ]
    );
    assert!(game.initial_options(0).contains(&Action::PlayActionCard));
    let mut recorder = Recorder {
        stages: vec![],
        options: vec![],
    };
    game.special_action(SpecialActionType::Sandbag, &mut recorder);
    assert_eq!(recorder.stages, vec![Action::Sandbag]);
    assert_eq!(recorder.options[0], vec!["Shore up Watchtower", "Shore up Coral Palace"]);
    assert_eq!(
        *game.board.get_by_type(&IslandCardName::Watchtower).state(),
        IslandCardState::Normal
    );
    game.play_action_card(&mut ScriptedChooser::new(vec![1]));
    assert_eq!(game.adventurers[1].get_hand().cards, vec![card(EARTH)]);
    assert_eq!(game.treasure_discard_deck.cards, vec![card(TreasureCardType::Sandbag)]);
    assert!(!game.board.has_shorable());
    assert_eq!(treasure_total(&game), 28);
}

#[test]
fn special_cards_cost_no_action() {
    let roles = [AdventurerCardType::Engineer];
    let mut game = plain_game(&roles, 0);
    hand_over(&mut game, 0, TreasureCardType::HelicopterLift);
    hand_over(&mut game, 0, TreasureCardType::HelicopterLift);
    let mut recorder = Recorder {
        stages: vec![],
        options: vec![],
    };
    game.initial_actions(0, &mut recorder, 3);
    let asked_at_start = recorder.stages.iter().filter(|s| **s == Action::Initial).count();
    assert_eq!(asked_at_start, 3);
    assert_eq!(recorder.options[0], vec!["Move Engineer", "Play action card", "End turn"]);
    assert_eq!(*game.adventurers[0].get_pos(), (4, 4));
    assert_eq!(game.adventurers[0].get_card_count(), 2);
    let mut game = plain_game(&roles, 0);
    hand_over(&mut game, 0, TreasureCardType::HelicopterLift);
    hand_over(&mut game, 0, TreasureCardType::HelicopterLift);
    let mut script = ScriptedChooser::new(vec![1, 0, 0, 1, 0, 0, 0, 0, 0, 0, 0]);
    game.initial_actions(0, &mut script, 1);
    assert_eq!(game.adventurers[0].get_card_count(), 0);
    assert_eq!(game.treasure_discard_deck.len(), 2);
    assert_eq!(*game.adventurers[0].get_pos(), (3, 1));
    let mut game = plain_game(&roles, 0);
    let before = snapshot(&game);
    game.initial_actions(0, &mut first(), 0);
    assert_eq!(snapshot(&game), before);
    let mut recorder = Recorder {
        stages: vec![],
        options: vec![],
    };
    assert!(!game.take_action(0, Action::EndTurn, &mut recorder));
    assert!(recorder.stages.is_empty());
    assert_eq!(snapshot(&game), before);
}

#[test]
fn hands_are_cut_down_to_five() {
    let mut game = plain_game(&[AdventurerCardType::Engineer], 0);
    for _ in 0..5 {
        hand_over(&mut game, 0, EARTH);
    }
    hand_over(&mut game, 0, TreasureCardType::Sandbag);
    hand_over(&mut game, 0, TreasureCardType::HelicopterLift);
    assert_eq!(
        game.discard_options(0),
        vec![
            (0, false),
            (1, false),
            (2, false),
            (3, false),
            (4, false),
            (5, false),
            (6, true),
            (6, false)
        ]
    );
    let mut recorder = Recorder {
        stages: vec![],
        options: vec![],
    };
    game.discard_cards(0, &mut recorder);
    assert_eq!(recorder.stages, vec![Action::DiscardCards]);
    assert_eq!(recorder.options[0][6], "Use Helicopter Lift card");
    assert_eq!(recorder.options[0][7], "Discard Helicopter Lift card");
    assert_eq!(recorder.options[0][0], "Discard The Earth Stone card");
    assert_eq!(game.adventurers[0].get_card_count(), 6);
    assert_eq!(game.treasure_discard_deck.cards, vec![card(EARTH)]);
    game.discard_cards(0, &mut ScriptedChooser::new(vec![5, 3]));
    assert_eq!(game.adventurers[0].get_card_count(), 5);
    assert_eq!(*game.adventurers[0].get_pos(), (2, 1));
    assert_eq!(treasure_total(&game), 28);
    let mut game = plain_game(&[AdventurerCardType::Engineer], 0);
    for _ in 0..5 {
        hand_over(&mut game, 0, EARTH);
    }
    game.treasure_deck = Deck::from(&[card(FIRE), card(FIRE), card(FIRE)]);
    game.treasure_discard_deck = Deck::from(
        &game
            .treasure_deck
            .cards
            .iter()
            .map(|_| card(TreasureCardType::WaterRise))
            .collect::<Vec<_>>(),
    );
    assert_eq!(game.play_turn(0, &mut ScriptedChooser::new(vec![1, 0])), None);
    assert_eq!(game.adventurers[0].get_card_count(), 5);
}

#[test]
fn treasure_deck_is_restocked_when_it_runs_out() {
    let mut game = plain_game(&[AdventurerCardType::Engineer], 0);
    let mut all = game.treasure_deck.cards.clone();
    let top = all.remove(0);
    game.treasure_deck = Deck::from(&[top]);
    game.treasure_discard_deck = Deck::from(&all);
    assert_eq!(game.draw_treasure(), Some(top));
    assert_eq!(game.treasure_deck.len(), 27);
    assert_eq!(game.treasure_discard_deck.len(), 0);
    game.take_treasure_card(0, top);
    assert_eq!(game.adventurers[0].get_hand().cards, vec![top]);
    assert_eq!(treasure_total(&game), 28);
    game.treasure_deck = Deck::new();
    assert_eq!(game.draw_treasure(), None);
    assert_eq!(game.draw_treasure_card(0), None);
    game.treasure_discard_deck = Deck::from(&[card(FIRE)]);
    assert_eq!(game.draw_treasure(), Some(card(FIRE)));
    assert!(game.treasure_deck.is_empty());
    assert!(game.treasure_discard_deck.is_empty());
}

#[test]
fn adventurers_leave_sunk_tiles() {
    let roles = [AdventurerCardType::Explorer, AdventurerCardType::Diver];
    let mut game = plain_game(&roles, 0);
    assert_eq!(game.evacuate(&mut first()), None);
    sink(&mut game, IslandCardName::CopperGate);
    assert_eq!(
        game.evacuation_options(0),
        vec![(3, 4), (2, 4), (1, 4), (3, 3), (1, 3), (3, 2), (2, 2), (1, 2)]
    );
    assert_eq!(game.evacuation_options(1), vec![(3, 4), (4, 3), (3, 2)]);
    assert_eq!(game.evacuate(&mut ScriptedChooser::new(vec![4])), None);
    assert_eq!(*game.adventurers[0].get_pos(), (1, 3));
    assert_eq!(*game.adventurers[1].get_pos(), (3, 3));
}

#[test]
fn the_diver_swims_to_the_nearest_tile() {
    let roles = [AdventurerCardType::Diver, AdventurerCardType::Engineer];
    let mut game = plain_game(&roles, 0);
    for name in [
        IslandCardName::IronGate,
        IslandCardName::CaveOfEmbers,
        IslandCardName::CopperGate,
        IslandCardName::TempleOfTheSun,
        IslandCardName::DunesOfDeception,
    ] {
        sink(&mut game, name);
    }
    assert_eq!(game.nearest(&(3, 3)), Some((3, 1)));
    assert_eq!(game.evacuation_options(0), vec![(3, 1)]);
    let mut recorder = Recorder {
        stages: vec![],
        options: vec![],
    };
    assert_eq!(game.evacuate(&mut recorder), None);
    assert!(recorder.stages.is_empty());
    assert_eq!(*game.adventurers[0].get_pos(), (3, 1));
    sink(&mut game, IslandCardName::MistyMarsh);
    assert_eq!(game.nearest(&(3, 3)), Some((2, 2)));
    game.adventurers[1].move_to((3, 3));
    assert_eq!(game.evacuation_options(1), Vec::<(usize, usize)>::new());
    assert_eq!(
        game.evacuate(&mut first()),
        Some(Ending::CannotEvacuate(AdventurerCardType::Engineer))
    );
    assert_eq!(
        Ending::CannotEvacuate(AdventurerCardType::Engineer).reason(),
        "Engineer cannot move to safety, you lose!"
    );
}

#[test]
fn dealing_skips_the_water_rises() {
    let roles = [AdventurerCardType::Diver, AdventurerCardType::Engineer];
    let mut game = plain_game(&roles, 0);
    game.treasure_deck = Deck::from(&[
        card(TreasureCardType::WaterRise),
        card(TreasureCardType::WaterRise),
        card(FIRE),
        card(EARTH),
        card(TreasureCardType::WaterRise),
        card(TreasureCardType::Sandbag),
    ]);
    game.deal_card(0);
    assert_eq!(game.adventurers[0].get_hand().cards, vec![card(FIRE)]);
    assert_eq!(game.treasure_discard_deck.len(), 2);
    assert_eq!(game.treasure_deck.len(), 3);
    game.deal_card(1);
    game.deal_card(1);
    assert_eq!(
        game.adventurers[1].get_hand().cards,
        vec![card(EARTH), card(TreasureCardType::Sandbag)]
    );
    assert_eq!(game.treasure_discard_deck.len(), 3);
    game.treasure_deck = Deck::from(&[card(TreasureCardType::WaterRise)]);
    game.deal_card(0);
    assert_eq!(game.adventurers[0].get_card_count(), 1);
    assert!(game.treasure_deck.is_empty());
    assert_eq!(game.treasure_discard_deck.len(), 4);
}

#[test]
fn set_up_from_given_decks() {
    let game = Game::set_up(
        ChaCha20Rng::seed_from_u64(0),
        IslandCard::get_deck(),
        TreasureCard::get_deck(),
        FloodCard::get_deck(),
        AdventurerCard::get_deck(),
        3,
        4,
    );
    let roles: Vec<AdventurerCardType> = game.adventurers.iter().map(|a| *a.get_type()).collect();
    assert_eq!(
        roles,
        vec![
            AdventurerCardType::Explorer,
            AdventurerCardType::Pilot,
            AdventurerCardType::Engineer
        ]
    );
    assert_eq!(*game.adventurers[0].get_pos(), (2, 3));
    assert_eq!(*game.adventurers[1].get_pos(), (4, 2));
    assert_eq!(*game.adventurers[2].get_pos(), (5, 2));
    let wind = TreasureCardType::Treasure(TreasureType::Wind);
    assert_eq!(game.adventurers[0].get_hand().cards, vec![card(EARTH), card(EARTH)]);
    assert_eq!(game.adventurers[1].get_hand().cards, vec![card(EARTH), card(EARTH)]);
    assert_eq!(game.adventurers[2].get_hand().cards, vec![card(EARTH), card(wind)]);
    assert_eq!(game.treasure_deck.len(), 22);
    assert_eq!(game.treasure_deck.cards[19..], TreasureCard::get_deck().cards[25..]);
    let mut rises_first = TreasureCard::get_deck();
    let mut rises = Deck::from(&rises_first.cards[20..23]);
    rises_first.cards.drain(20..23);
    rises_first.stack_front(&mut rises);
    let other = Game::set_up(
        ChaCha20Rng::seed_from_u64(0),
        IslandCard::get_deck(),
        rises_first,
        FloodCard::get_deck(),
        AdventurerCard::get_deck(),
        2,
        0,
    );
    assert_eq!(other.adventurers[1].get_hand().cards, vec![card(EARTH), card(EARTH)]);
    assert_eq!(other.treasure_discard_deck.len(), 0);
    assert_eq!(other.treasure_deck.len(), 24);
    assert_eq!(other.treasure_deck.cards[21..], [card(TreasureCardType::WaterRise); 3]);
    assert_eq!(game.treasure_deck.cards[0], card(TreasureCardType::Treasure(TreasureType::Wind)));
    assert_eq!(game.water_level, 4);
    let flooded: Vec<IslandCardName> = game.board.get_shorable();
    assert_eq!(flooded, IslandCardName::iter()[..6].to_vec());
    assert_eq!(game.flood_deck.cards[0], FloodCard::new(IslandCardName::CrimsonForest));
}

#[test]
fn scripted_chooser_goes_round() {
    let mut chooser = ScriptedChooser::new(vec![4, 1, 7]);
    let three = vec!["a".to_string(), "b".to_string(), "c".to_string()];
    assert_eq!(chooser.decide(Action::Initial, &three), 1);
    assert_eq!(chooser.decide(Action::Initial, &three), 1);
    assert_eq!(chooser.decide(Action::Initial, &three), 1);
    assert_eq!(chooser.decide(Action::Initial, &three), 1);
    let five = vec![String::new(); 5];
    assert_eq!(chooser.decide(Action::Move, &five), 1);
    assert_eq!(chooser.decide(Action::Move, &five), 2);
    let mut empty = ScriptedChooser::new(vec![]);
    assert_eq!(empty.decide(Action::Move, &five), 0);
}

#[test]
fn looking_up_adventurers() {
    let roles = [AdventurerCardType::Diver, AdventurerCardType::Engineer];
    let mut game = plain_game(&roles, 0);
    assert_eq!(game.find_adventurer(&AdventurerCardType::Engineer), Some(1));
    assert_eq!(game.find_adventurer(&AdventurerCardType::Pilot), None);
    assert_eq!(
        game.get_adventurer(&AdventurerCardType::Diver).unwrap().get_pos(),
        &(3, 3)
    );
    assert!(game.get_adventurer(&AdventurerCardType::Pilot).is_none());
    game.get_adventurer_mut(&AdventurerCardType::Engineer)
        .unwrap()
        .move_to((4, 2));
    assert_eq!(*game.adventurers[1].get_pos(), (4, 2));
    assert!(game.get_adventurer_mut(&AdventurerCardType::Navigator).is_none());
    assert!(game.someone_holds(&EARTH) == false);
    hand_over(&mut game, 1, EARTH);
    assert!(game.someone_holds(&EARTH));
}

#[test]
fn games_with_any_number_of_adventurers() {
    for count in 1..=6 {
        for water_level in 0..=4 {
            for seed in 0..8 {
                let mut game = Game::new(ChaCha20Rng::seed_from_u64(1000 + seed), count, water_level);
                assert_eq!(game.adventurers.len(), count);
                let mut roles: Vec<String> = game
                    .adventurers
                    .iter()
                    .map(|a| a.get_type().name())
                    .collect();
                roles.sort();
                roles.dedup();
                assert_eq!(roles.len(), count);
                let mut dice = Dice {
                    state: seed * 31 + count as u64,
                    asked: 0,
                };
                let outcome = game.play(&mut dice);
                assert_ne!(outcome.ending, Ending::Unfinished);
                assert_eq!(treasure_total(&game), 28);
                assert_eq!(flood_total(&game), 24);
                assert_eq!(game.adventurers.len(), count);
            }
        }
    }
}

#[test]
fn first_option_policy_ends_too() {
    for seed in 0..20 {
        let mut game = Game::new(ChaCha20Rng::seed_from_u64(seed), 4, 2);
        let mut recorder = Recorder {
            stages: vec![],
            options: vec![],
        };
        let outcome = game.play(&mut recorder);
        assert_ne!(outcome.ending, Ending::Unfinished);
        for options in &recorder.options {
            assert!(!options.is_empty());
            for option in options {
                assert!(!option.is_empty());
            }
        }
        assert_eq!(treasure_total(&game), 28);
    }
}

#[test]
fn lifts_land_on_flooded_tiles_but_not_on_sunk_ones() {
    let mut game = plain_game(&[AdventurerCardType::Engineer], 0);
    flood(&mut game, IslandCardName::Watchtower);
    sink(&mut game, IslandCardName::CliffsOfAbandon);
    let places = game.landing_places(&(5, 2));
    assert_eq!(places.len(), 22);
    assert!(places.contains(&(3, 0)));
    assert!(!places.contains(&(2, 0)));
    assert!(!places.contains(&(5, 2)));
    let options = game.helicopter_options();
    assert_eq!(options.len(), 22);
    assert_eq!(options[0], ((3, 0), vec![0]));
    hand_over(&mut game, 0, TreasureCardType::HelicopterLift);
    game.play_action_card(&mut first());
    assert_eq!(*game.adventurers[0].get_pos(), (3, 0));
    assert_eq!(
        *game.board.get_by_type(&IslandCardName::Watchtower).state(),
        IslandCardState::Flooded
    );
    assert_eq!(treasure_total(&game), 28);
}

#[test]
fn a_lift_with_nowhere_to_land_moves_nobody() {
    let mut game = plain_game(&[AdventurerCardType::Engineer], 0);
    for name in IslandCardName::iter() {
        if name != IslandCardName::BronzeGate {
            sink(&mut game, name);
        }
    }
    assert!(game.helicopter_options().is_empty());
    let before = snapshot(&game);
    game.helicopter_lift(&mut first());
    assert_eq!(snapshot(&game), before);
}

#[test]
fn both_cards_are_drawn_before_either_is_taken() {
    let mut game = plain_game(&[AdventurerCardType::Engineer], 0);
    let mut others = game.treasure_deck.cards.clone();
    others.retain(|c| c.get_type() != TreasureCardType::WaterRise);
    let kept = others.split_off(2);
    game.treasure_deck = Deck::from(&[card(TreasureCardType::WaterRise), others[0]]);
    game.treasure_discard_deck = Deck::from(&[others[1]]);
    for extra in [card(TreasureCardType::WaterRise), card(TreasureCardType::WaterRise)] {
        game.adventurers[0].receive_card(extra);
    }
    for extra in kept {
        game.adventurers[0].receive_card(extra);
    }
    assert_eq!(treasure_total(&game), 28);
    let drawn = game.draw_treasure_cards(0);
    assert_eq!(drawn, (Some(card(TreasureCardType::WaterRise)), Some(others[0])));
    assert_eq!(game.treasure_deck.cards, vec![others[1]]);
    assert_eq!(game.treasure_discard_deck.cards, vec![card(TreasureCardType::WaterRise)]);
    assert_eq!(game.water_level, 1);
    assert_eq!(*game.adventurers[0].get_hand().cards.last().unwrap(), others[0]);
    assert_eq!(treasure_total(&game), 28);
}

#[test]
fn a_single_option_is_taken_without_asking() {
    let mut game = plain_game(&[AdventurerCardType::Engineer, AdventurerCardType::Diver], 0);
    flood(&mut game, IslandCardName::BronzeGate);
    hand_over(&mut game, 0, EARTH);
    game.adventurers[1].move_to((5, 2));
    let mut recorder = Recorder {
        stages: vec![],
        options: vec![],
    };
    game.shore_up(0, &mut recorder);
    game.give_card(0, &mut recorder);
    assert!(recorder.stages.is_empty());
    assert_eq!(game.adventurers[1].get_card_count(), 1);
    assert!(!game.board.has_shorable());
    game.move_adventurer(0, &mut recorder);
    assert_eq!(recorder.stages, vec![Action::Move]);
    assert_eq!(recorder.options[0], vec!["Move Engineer to Temple Of The Moon", "Move Engineer to Fools Landing"]);
}

#[test]
fn parties_of_three_in_order() {
    let roles = [
        AdventurerCardType::Explorer,
        AdventurerCardType::Messenger,
        AdventurerCardType::Diver,
    ];
    let mut game = plain_game(&roles, 0);
    game.adventurers[0].move_to((1, 3));
    game.adventurers[2].move_to((1, 3));
    for name in IslandCardName::iter() {
        if name != IslandCardName::SilverGate && name != IslandCardName::CoralPalace {
            sink(&mut game, name);
        }
    }
    let options = game.helicopter_options();
    let parties: Vec<Vec<usize>> = options.iter().map(|(_, party)| party.clone()).collect();
    assert_eq!(
        parties,
        vec![
            vec![0],
            vec![1],
            vec![2],
            vec![0, 1],
            vec![0, 2],
            vec![1, 2],
            vec![0, 1, 2]
        ]
    );
    for (place, _) in &options {
        assert_eq!(*place, (3, 5));
    }
    let parties_of_two = Game::party_options(&vec![(3, 5), (2, 0)], &vec![4, 7, 9, 11], 3);
    assert_eq!(
        parties_of_two,
        vec![
            ((3, 5), vec![4, 7, 9]),
            ((3, 5), vec![4, 7, 11]),
            ((3, 5), vec![4, 9, 11]),
            ((3, 5), vec![7, 9, 11]),
            ((2, 0), vec![4, 7, 9]),
            ((2, 0), vec![4, 7, 11]),
            ((2, 0), vec![4, 9, 11]),
            ((2, 0), vec![7, 9, 11]),
        ]
    );
    assert!(Game::party_options(&vec![(3, 5)], &vec![4, 7], 3).is_empty());
}
