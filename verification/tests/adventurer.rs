use forbidden_island::structs::board::Board;
use forbidden_island::structs::cards::adventurer::{Adventurer, AdventurerCard, AdventurerCardType};
use forbidden_island::structs::cards::island::{IslandCard, IslandCardName};
use forbidden_island::structs::cards::{Card, Deck};

#[test]
fn adventurer_test_fn_new() {
    assert_eq!(
        AdventurerCard {
            adventurer_type: AdventurerCardType::Explorer
        },
        AdventurerCard::new(&AdventurerCardType::Explorer)
    );
}

#[test]
fn test_fn_get_start_card() {
    assert_eq!(
        AdventurerCard {
            adventurer_type: AdventurerCardType::Explorer
        }
        .get_start_card(),
        IslandCardName::CopperGate
    );
    assert_eq!(
        AdventurerCard {
            adventurer_type: AdventurerCardType::Pilot
        }
        .get_start_card(),
        IslandCardName::FoolsLanding
    );
    assert_eq!(
        AdventurerCard {
            adventurer_type: AdventurerCardType::Engineer
        }
        .get_start_card(),
        IslandCardName::BronzeGate
    );
    assert_eq!(
        AdventurerCard {
            adventurer_type: AdventurerCardType::Diver
        }
        .get_start_card(),
        IslandCardName::IronGate
    );
    assert_eq!(
        AdventurerCard {
            adventurer_type: AdventurerCardType::Messenger
        }
        .get_start_card(),
        IslandCardName::SilverGate
    );
    assert_eq!(
        AdventurerCard {
            adventurer_type: AdventurerCardType::Navigator
        }
        .get_start_card(),
        IslandCardName::GoldGate
    );
}

#[test]
fn adventurer_test_fn_get_type() {
    assert_eq!(
        AdventurerCard {
            adventurer_type: AdventurerCardType::Explorer
        }
        .get_type(),
        AdventurerCardType::Explorer
    );
}

#[test]
fn test_fn_adventurer_new() {
    let mut island_deck = IslandCard::get_deck();
    let board = Board::new(&mut island_deck);
    assert_eq!(
        Adventurer {
            card: AdventurerCardType::Explorer,
            pos: board.get_location(&IslandCardName::CopperGate),
            hand: Deck::with_capacity(10),
        },
        Adventurer::new(AdventurerCard::new(&AdventurerCardType::Explorer), &board)
    );
}
