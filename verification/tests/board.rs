use forbidden_island::decks::{get_flood_deck, get_island_deck, get_treasure_deck};
use forbidden_island::structs::board::{slot_of, Board, ISLAND_COORDS};
use forbidden_island::structs::cards::adventurer::{AdventurerCard, AdventurerCardType};
use forbidden_island::structs::cards::flood::FloodCard;
use forbidden_island::structs::cards::island::{IslandCard, IslandCardName, IslandCardState};
use forbidden_island::structs::cards::treasure::{
    SpecialActionType, TreasureCard, TreasureCardType, TreasureType,
};
use forbidden_island::structs::cards::{Card, CardType, Deck};
use forbidden_island::structs::game::movement::{around, distance, steps};

fn board() -> Board {
    Board::new(&mut IslandCard::get_deck())
}

#[test]
fn places_and_slots() {
    for (slot, place) in ISLAND_COORDS.iter().enumerate() {
        assert_eq!(slot_of(place), Some(slot));
    }
    let mut valid = 0;
    for x in 0..8 {
        for y in 0..8 {
            if slot_of(&(x, y)).is_some() {
                valid += 1;
                assert!(ISLAND_COORDS.contains(&(x, y)));
            }
        }
    }
    assert_eq!(valid, 24);
    assert_eq!(slot_of(&(0, 0)), None);
    assert_eq!(slot_of(&(5, 5)), None);
    assert_eq!(slot_of(&(6, 2)), None);
}

#[test]
fn board_is_laid_out_from_the_deck() {
    let mut deck = IslandCard::get_deck();
    let board = Board::new(&mut deck);
    assert!(deck.is_empty());
    for (slot, name) in IslandCardName::iter().iter().enumerate() {
        assert_eq!(board.get_location(name), ISLAND_COORDS[slot]);
        assert_eq!(board.get_by_type(name), IslandCard::from_name(name));
        assert_eq!(board.get_card(&ISLAND_COORDS[slot]), Some(IslandCard::from_name(name)));
    }
    assert_eq!(board.get_card(&(0, 0)), None);
    let mut reversed = IslandCard::get_deck();
    reversed.cards.reverse();
    let board = Board::new(&mut reversed);
    assert_eq!(board.get_location(&IslandCardName::CoralPalace), (2, 0));
    assert_eq!(board.get_location(&IslandCardName::CliffsOfAbandon), (3, 5));
    assert_eq!(board.get_card(&(2, 0)).unwrap().name(), IslandCardName::CoralPalace);
}

#[test]
fn tiles_sink_and_rise_one_step_at_a_time() {
    let mut board = board();
    assert!(!board.has_shorable());
    assert_eq!(board.get_shorable(), vec![]);
    assert!(!board.sink(&IslandCardName::GoldGate));
    assert_eq!(*board.get_by_type(&IslandCardName::GoldGate).state(), IslandCardState::Flooded);
    assert!(board.has_shorable());
    assert!(!board.sink(&IslandCardName::Watchtower));
    assert_eq!(
        board.get_shorable(),
        vec![IslandCardName::Watchtower, IslandCardName::GoldGate]
    );
    board.shore_up(&(0, 3));
    assert_eq!(*board.get_by_type(&IslandCardName::GoldGate).state(), IslandCardState::Normal);
    assert!(board.sink(&IslandCardName::Watchtower));
    assert_eq!(*board.get_by_type(&IslandCardName::Watchtower).state(), IslandCardState::Sunk);
    assert!(!board.has_shorable());
    for name in IslandCardName::iter() {
        if name != IslandCardName::Watchtower {
            assert_eq!(*board.get_by_type(&name).state(), IslandCardState::Normal);
        }
    }
}

#[test]
fn states_step_both_ways() {
    assert_eq!(IslandCardState::Sunk.prev(), IslandCardState::Flooded);
    assert_eq!(IslandCardState::Flooded.prev(), IslandCardState::Normal);
    let mut state = IslandCardState::Sunk;
    state.step_back();
    assert_eq!(state, IslandCardState::Flooded);
    state.step_back();
    assert_eq!(state, IslandCardState::Normal);
    let mut tile = IslandCard::from_name(&IslandCardName::CaveOfEmbers);
    assert_eq!(tile.can_retrieve(), Some(TreasureType::Fire));
    tile.sink();
    assert_eq!(*tile.state(), IslandCardState::Flooded);
    tile.raise();
    assert_eq!(*tile.state(), IslandCardState::Normal);
    tile.sink();
    tile.sink();
    assert_eq!(*tile.state(), IslandCardState::Sunk);
    assert_eq!(tile.name(), IslandCardName::CaveOfEmbers);
    assert_eq!(tile.can_retrieve(), Some(TreasureType::Fire));
}

#[test]
fn tiles_are_drawn() {
    let mut tile = IslandCard::from_name(&IslandCardName::FoolsLanding);
    assert_eq!(tile.tile_str(), "+===+\n\u{2551}F L\u{2551}\n+===+");
    tile.sink();
    assert_eq!(tile.tile_str(), "+---+\n|F L|\n+---+");
    assert_eq!(tile.tile_line(1), "|F L|");
    tile.sink();
    assert_eq!(tile.tile_str(), "+   +\n F L \n+   +");
    assert_eq!(tile.tile_line(0), "+   +");
    assert_eq!(tile.tile_line(2), "+   +");
    let mut board = board();
    board.sink(&IslandCardName::Watchtower);
    let text = board.show();
    let lines: Vec<&str> = text.split('\n').collect();
    assert_eq!(lines.len(), 18);
    assert_eq!(lines[0], "            +===+ +---+            ");
    assert_eq!(lines[1], "            \u{2551}C A\u{2551} | W |            ");
    assert_eq!(lines[2], "            +===+ +---+            ");
    assert_eq!(lines[6], "+===+ +===+ +===+ +===+ +===+ +===+");
    assert_eq!(
        lines[7],
        "\u{2551}C F\u{2551} \u{2551} O \u{2551} \u{2551}B B\u{2551} \u{2551}D D\u{2551} \u{2551}F L\u{2551} \u{2551}B G\u{2551}"
    );
    assert_eq!(lines[17], "            +===+ +===+            ");
    for line in lines {
        assert_eq!(line.chars().count(), 35);
    }
}

#[test]
fn tile_names_and_treasures() {
    let names = IslandCardName::iter();
    assert_eq!(names.len(), 24);
    assert_eq!(names, IslandCardName::all().to_vec());
    for (index, name) in names.iter().enumerate() {
        assert_eq!(name.index(), index);
        assert_eq!(IslandCardName::from_index(index), *name);
        assert_eq!(name.shorthand().chars().count(), 3);
        assert_eq!(IslandCard::from_name(name).can_retrieve(), name.affinity());
        assert_eq!(IslandCard::from_name(name).as_string(), name.name());
    }
    assert_eq!(IslandCardName::Watchtower.shorthand(), " W ");
    assert_eq!(IslandCardName::TempleOfTheMoon.name(), "Temple Of The Moon");
    for kind in TreasureType::iter() {
        let tiles = names.iter().filter(|name| name.affinity() == Some(kind)).count();
        assert_eq!(tiles, 2);
    }
    assert_eq!(names.iter().filter(|name| name.affinity().is_none()).count(), 16);
    assert_eq!(IslandCardName::TidalPalace.affinity(), Some(TreasureType::Ocean));
    assert_eq!(IslandCardName::HowlingGarden.affinity(), Some(TreasureType::Wind));
    assert_eq!(TreasureType::Wind.get_name(), "The Statue of the Wind");
}

#[test]
fn starting_decks() {
    assert_eq!(get_island_deck(), IslandCard::get_deck());
    assert_eq!(get_flood_deck(), FloodCard::get_deck());
    assert_eq!(get_treasure_deck(), TreasureCard::get_deck());
    let deck = get_treasure_deck();
    assert_eq!(deck.len(), 28);
    let count = |kind: TreasureCardType| deck.iter().filter(|c| c.get_type() == kind).count();
    for kind in TreasureType::all() {
        assert_eq!(count(TreasureCardType::Treasure(kind)), 5);
    }
    assert_eq!(count(TreasureCardType::WaterRise), 3);
    assert_eq!(count(TreasureCardType::HelicopterLift), 3);
    assert_eq!(count(TreasureCardType::Sandbag), 2);
    assert_eq!(TreasureCardType::iter(), TreasureCardType::all().to_vec());
    assert_eq!(AdventurerCard::get_deck().len(), 6);
    assert_eq!(AdventurerCardType::iter(), AdventurerCardType::all().to_vec());
    assert_eq!(IslandCard::card_type(), CardType::Island);
    assert_eq!(TreasureCard::card_type(), CardType::Treasure);
    assert_eq!(FloodCard::card_type(), CardType::Flood);
    assert_eq!(AdventurerCard::card_type(), CardType::Adventurer);
    assert_eq!(TreasureCardType::Sandbag.special(), Some(SpecialActionType::Sandbag));
    assert_eq!(
        TreasureCardType::HelicopterLift.special(),
        Some(SpecialActionType::HelicopterLift)
    );
    assert_eq!(TreasureCardType::WaterRise.special(), None);
    assert_eq!(TreasureCard::new(&TreasureCardType::WaterRise).as_string(), "Water Rise");
    assert_eq!(
        AdventurerCard::new(&AdventurerCardType::Messenger).as_string(),
        "Messenger"
    );
}

#[test]
fn deck_operations() {
    let one = FloodCard::new(IslandCardName::Watchtower);
    let two = FloodCard::new(IslandCardName::GoldGate);
    let three = FloodCard::new(IslandCardName::IronGate);
    let mut deck: Deck<FloodCard> = Deck::new();
    assert!(deck.is_empty());
    assert_eq!(deck.peak_next(), None);
    assert_eq!(deck.pop_next(), None);
    deck.insert(one);
    deck.insert(two);
    deck.insert(three);
    assert_eq!(deck.len(), 3);
    assert_eq!(deck.peak_next(), Some(&one));
    assert_eq!(deck.peak_card(2), Some(&three));
    assert_eq!(deck.peak_card(3), None);
    assert!(deck.contains(&two));
    assert_eq!(deck.pop_card(1), Some(two));
    assert!(!deck.contains(&two));
    assert_eq!(deck.pop_card(5), None);
    assert_eq!(deck.cards, vec![one, three]);
    let mut other = Deck::from(&[two]);
    deck.stack(&mut other);
    assert!(other.is_empty());
    assert_eq!(deck.cards, vec![one, three, two]);
    let mut front = Deck::from(&[three, one]);
    let mut under: Deck<FloodCard> = Deck::with_capacity(4);
    under.insert(two);
    under.stack_front(&mut front);
    assert!(front.is_empty());
    assert_eq!(under.cards, vec![three, one, two]);
    assert_eq!(under.pop_next(), Some(three));
    assert_eq!(under.iter().copied().collect::<Vec<_>>(), vec![one, two]);
    assert!(one.same(&FloodCard::from_name(&IslandCardName::Watchtower)));
    assert!(!one.same(&two));
}

#[test]
fn places_around_a_place() {
    assert_eq!(steps(false).len(), 5);
    assert_eq!(steps(true).len(), 9);
    assert_eq!(around(&(2, 2), false), vec![(2, 3), (1, 2), (2, 2), (3, 2), (2, 1)]);
    assert_eq!(
        around(&(2, 2), true),
        vec![(3, 3), (2, 3), (1, 3), (3, 2), (2, 2), (1, 2), (3, 1), (2, 1), (1, 1)]
    );
    assert_eq!(around(&(0, 2), false), vec![(0, 3), (0, 2), (1, 2)]);
    assert_eq!(around(&(2, 0), true), vec![(3, 1), (2, 1), (1, 1), (3, 0), (2, 0)]);
    assert_eq!(around(&(3, 5), false), vec![(2, 5), (3, 5), (3, 4)]);
    assert_eq!(distance(&(3, 3), &(3, 1)), 2);
    assert_eq!(distance(&(0, 2), &(5, 3)), 6);
    assert_eq!(distance(&(4, 4), &(4, 4)), 0);
}
