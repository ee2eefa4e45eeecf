//! The stages at which a decision is asked for, and the kinds of move.

use vstd::prelude::*;

use crate::structs::cards::adventurer::AdventurerCardType;
use crate::structs::cards::treasure::TreasureType;

verus! {

/// The stage of a turn.  A stage is handed to the decision source with the
/// options, and the actions on offer at the start of a turn are stages too.
#[derive(Debug, Clone, Copy, PartialEq, Eq, Structural)]
pub enum Action {
    Initial,
    Move,
    ShoreUp,
    GiveCard,
    CaptureTreasure(TreasureType),
    PlayActionCard,
    Sandbag,
    HelicopterLift,
    EndTurn,
    EndAction,
    DiscardCards,
}

/// One way of moving an adventurer during the acting adventurer's turn.
#[derive(Debug, Clone, Copy, PartialEq, Eq)]
pub enum MoveType {
    /// The acting adventurer walks to the place.
    Move((usize, usize)),
    /// The pilot flies to the place, which uses up the flight of this turn.
    PilotMove((usize, usize)),
    /// The navigator sends the adventurer of the given role to the place.
    NavigatorMove(AdventurerCardType, (usize, usize)),
}

} // verus!
