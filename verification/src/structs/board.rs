//! The island: twenty-four tiles laid out on fixed places of a 6 by 6 grid.

use vstd::prelude::*;
use vstd::string::*;

use super::cards::island::{IslandCard, IslandCardName, IslandCardState};
use super::cards::Deck;

verus! {

/// The places of the grid that hold a tile, row by row.  A place is written
/// `(x, y)`: column first.
pub const ISLAND_COORDS: [(usize, usize); 24] = [
    (2, 0),
    (3, 0),
    (1, 1),
    (2, 1),
    (3, 1),
    (4, 1),
    (0, 2),
    (1, 2),
    (2, 2),
    (3, 2),
    (4, 2),
    (5, 2),
    (0, 3),
    (1, 3),
    (2, 3),
    (3, 3),
    (4, 3),
    (5, 3),
    (1, 4),
    (2, 4),
    (3, 4),
    (4, 4),
    (2, 5),
    (3, 5),
];

/// Whether `coord` is one of the twenty-four places that hold a tile.
pub open spec fn valid_coord(coord: (usize, usize)) -> bool {
    let (x, y) = coord;
    ||| (y == 0 || y == 5) && 2 <= x <= 3
    ||| (y == 1 || y == 4) && 1 <= x <= 4
    ||| (y == 2 || y == 3) && x <= 5
}

/// The position of a valid place in [`ISLAND_COORDS`].
pub open spec fn spec_slot(coord: (usize, usize)) -> int {
    let (x, y) = coord;
    if y == 0 {
        x - 2
    } else if y == 1 {
        x + 1
    } else if y == 2 {
        x + 6
    } else if y == 3 {
        x + 12
    } else if y == 4 {
        x + 17
    } else {
        x + 20
    }
}

/// [`ISLAND_COORDS`] lists the valid places, each once, and [`spec_slot`]
/// finds each of them again.
pub proof fn lemma_island_coords()
    ensures
        forall|i: int|
            0 <= i < 24 ==> valid_coord(#[trigger] ISLAND_COORDS[i]) && spec_slot(ISLAND_COORDS[i])
                == i,
        forall|coord: (usize, usize)| #[trigger]
            valid_coord(coord) ==> 0 <= spec_slot(coord) < 24 && ISLAND_COORDS[spec_slot(coord)]
                == coord,
{
}

/// The position of `coord` in [`ISLAND_COORDS`], if it holds a tile.
pub fn slot_of(coord: &(usize, usize)) -> (slot: Option<usize>)
    ensures
        valid_coord(*coord) ==> slot == Some(spec_slot(*coord) as usize) && spec_slot(*coord) < 24,
        !valid_coord(*coord) ==> slot is None,
{
    let (x, y) = *coord;
    if (y == 0 || y == 5) && 2 <= x && x <= 3 {
        if y == 0 {
            Some(x - 2)
        } else {
            Some(x + 20)
        }
    } else if (y == 1 || y == 4) && 1 <= x && x <= 4 {
        if y == 1 {
            Some(x + 1)
        } else {
            Some(x + 17)
        }
    } else if (y == 2 || y == 3) && x <= 5 {
        if y == 2 {
            Some(x + 6)
        } else {
            Some(x + 12)
        }
    } else {
        None
    }
}

/// Whether some card of `cards` is the card of tile `name`.
pub open spec fn holds_tile(cards: Seq<IslandCard>, name: IslandCardName) -> bool {
    exists|i: int| 0 <= i < cards.len() && (#[trigger] cards[i]).name == name
}

/// Whether `cards` holds every island tile exactly once, each on a well
/// formed card.
pub open spec fn full_island_deck(cards: Seq<IslandCard>) -> bool {
    &&& cards.len() == 24
    &&& forall|i: int| 0 <= i < 24 ==> (#[trigger] cards[i]).wf()
    &&& forall|name: IslandCardName| #[trigger] holds_tile(cards, name)
    &&& forall|i: int, j: int|
        0 <= i < j < 24 ==> (#[trigger] cards[i]).name != (#[trigger] cards[j]).name
}

/// The board as a mathematical value.
pub struct BoardView {
    /// The tile cards, in the order of [`ISLAND_COORDS`].
    pub cells: Seq<IslandCard>,
    /// For each tile, by its index, the position of its card in `cells`.
    pub slots: Seq<usize>,
}

impl BoardView {
    /// Tiles and places correspond one to one: every tile has a place, and
    /// the card at that place is the tile's card.
    pub open spec fn wf(self) -> bool {
        &&& self.cells.len() == 24
        &&& self.slots.len() == 24
        &&& forall|n: int|
            0 <= n < 24 ==> (#[trigger] self.slots[n]) < 24 && self.cells[self.slots[n] as int].name
                == IslandCardName::spec_from_index(n)
        &&& forall|i: int|
            0 <= i < 24 ==> (#[trigger] self.cells[i]).wf() && self.slots[self.cells[i].name.spec_index() as int]
                == i
    }

    /// The position in `cells` of the card of tile `name`.
    pub open spec fn slot(self, name: IslandCardName) -> int {
        self.slots[name.spec_index() as int] as int
    }

    /// The place where tile `name` lies.
    pub open spec fn location(self, name: IslandCardName) -> (usize, usize) {
        ISLAND_COORDS[self.slot(name)]
    }

    /// The card of tile `name`.
    pub open spec fn card(self, name: IslandCardName) -> IslandCard {
        self.cells[self.slot(name)]
    }

    /// The card that lies at `coord`, if the place holds a tile.
    pub open spec fn card_at(self, coord: (usize, usize)) -> Option<IslandCard> {
        if valid_coord(coord) {
            Some(self.cells[spec_slot(coord)])
        } else {
            None
        }
    }

    /// Whether `coord` holds a tile in state `state`.
    pub open spec fn is_at(self, coord: (usize, usize), state: IslandCardState) -> bool {
        valid_coord(coord) && self.cells[spec_slot(coord)].state == state
    }

    /// The board after the water has risen once over tile `name`.
    pub open spec fn sink(self, name: IslandCardName) -> BoardView {
        BoardView { cells: self.cells.update(self.slot(name), self.card(name).spec_sink()), ..self }
    }

    /// The board after the tile at `coord` has been shored up.
    pub open spec fn shore_up(self, coord: (usize, usize)) -> BoardView {
        BoardView {
            cells: self.cells.update(spec_slot(coord), self.cells[spec_slot(coord)].spec_raise()),
            ..self
        }
    }

    /// Whether some tile is flooded.
    pub open spec fn has_shorable(self) -> bool {
        exists|i: int| 0 <= i < self.cells.len() && (#[trigger] self.cells[i]).state
            == IslandCardState::Flooded
    }

    /// The flooded tiles, row by row.
    pub open spec fn shorable(self) -> Seq<IslandCardName> {
        self.cells.filter(|card: IslandCard| card.state == IslandCardState::Flooded).map_values(
            |card: IslandCard| card.name,
        )
    }

    /// The number of sunk tiles among the first `n` places.
    pub open spec fn sunk_among(self, n: nat) -> nat
        decreases n,
    {
        if n == 0 {
            0
        } else {
            self.sunk_among((n - 1) as nat) + if self.cells[n - 1].state == IslandCardState::Sunk {
                1nat
            } else {
                0nat
            }
        }
    }

    /// The number of sunk tiles.
    pub open spec fn sunk_count(self) -> nat {
        self.sunk_among(self.cells.len())
    }
}

/// The island.
#[derive(Debug)]
pub struct Board {
    pub cells: Vec<IslandCard>,
    pub slots: Vec<usize>,
}

impl View for Board {
    type V = BoardView;

    open spec fn view(&self) -> BoardView {
        BoardView { cells: self.cells@, slots: self.slots@ }
    }
}

impl Board {
    /// Lays out the island: the cards of `island_deck` go, from the top of
    /// the deck, to the places of [`ISLAND_COORDS`] in order.
    pub fn new(island_deck: &mut Deck<IslandCard>) -> (board: Board)
        requires
            full_island_deck(old(island_deck)@),
        ensures
            board@.wf(),
            board@.cells == old(island_deck)@,
            final(island_deck)@.len() == 0,
    {
        let ghost cards = island_deck@;
        let mut cells: Vec<IslandCard> = Vec::with_capacity(24);
        let mut slots: Vec<usize> = Vec::with_capacity(24);
        let mut k: usize = 0;
        while k < 24
            invariant
                k <= 24,
                slots@.len() == k,
            decreases 24 - k,
        {
            slots.push(0);
            k += 1;
        }
        let mut i: usize = 0;
        while i < 24
            invariant
                i <= 24,
                full_island_deck(cards),
                island_deck@ == cards.subrange(i as int, 24),
                cells@ == cards.subrange(0, i as int),
                slots@.len() == 24,
                forall|j: int| 0 <= j < i ==> slots@[(#[trigger] cards[j]).name.spec_index() as int] == j,
            decreases 24 - i,
        {
            let card = island_deck.pop_next().unwrap();
            assert(card == cards[i as int]);
            slots.set(card.name().index(), i);
            cells.push(card);
            assert(cells@ =~= cards.subrange(0, i + 1));
            assert(island_deck@ =~= cards.subrange(i + 1, 24));
            i += 1;
        }
        assert(cells@ =~= cards);
        let board = Board { cells, slots };
        assert(board@.wf()) by {
            assert forall|n: int| 0 <= n < 24 implies (#[trigger] board@.slots[n]) < 24
                && board@.cells[board@.slots[n] as int].name == IslandCardName::spec_from_index(
                n,
            ) by {
                let name = IslandCardName::spec_from_index(n);
                assert(holds_tile(cards, name));
                let j = choose|j: int| 0 <= j < 24 && (#[trigger] cards[j]).name == name;
                assert(cards[j].name.spec_index() == n);
            }
        }
        board
    }

    /// Lets the water rise once over tile `card`: a dry tile floods, a
    /// flooded tile sinks.  Returns whether the tile has just sunk.
    pub fn sink(&mut self, card: &IslandCardName) -> (sunk: bool)
        requires
            old(self)@.wf(),
            old(self)@.card(*card).state != IslandCardState::Sunk,
        ensures
            final(self)@ == old(self)@.sink(*card),
            final(self)@.wf(),
            sunk == (old(self)@.card(*card).state == IslandCardState::Flooded),
            sunk == (final(self)@.card(*card).state == IslandCardState::Sunk),
    {
        let slot = self.slots[card.index()];
        let mut tile = self.cells[slot];
        tile.sink();
        self.cells.set(slot, tile);
        tile.state == IslandCardState::Sunk
    }

    /// Shores up the flooded tile at `coord`.
    pub fn shore_up(&mut self, coord: &(usize, usize))
        requires
            old(self)@.wf(),
            old(self)@.is_at(*coord, IslandCardState::Flooded),
        ensures
            final(self)@ == old(self)@.shore_up(*coord),
            final(self)@.wf(),
            final(self)@.is_at(*coord, IslandCardState::Normal),
    {
        let slot = slot_of(coord).unwrap();
        let mut tile = self.cells[slot];
        tile.raise();
        self.cells.set(slot, tile);
    }

    /// The place where tile `card` lies.
    pub fn get_location(&self, card: &IslandCardName) -> (coord: (usize, usize))
        requires
            self@.wf(),
        ensures
            coord == self@.location(*card),
            valid_coord(coord),
            self@.card_at(coord) == Some(self@.card(*card)),
    {
        proof {
            lemma_island_coords();
        }
        ISLAND_COORDS[self.slots[card.index()]]
    }

    /// The card of tile `card`.
    pub fn get_by_type(&self, card: &IslandCardName) -> (tile: IslandCard)
        requires
            self@.wf(),
        ensures
            tile == self@.card(*card),
            tile.name == *card,
            tile.wf(),
    {
        proof {
            crate::structs::cards::island::lemma_index_round_trip(*card, 0);
        }
        self.cells[self.slots[card.index()]]
    }

    /// The card that lies at `coord`, if the place holds a tile.
    pub fn get_card(&self, coord: &(usize, usize)) -> (tile: Option<IslandCard>)
        requires
            self@.wf(),
        ensures
            tile == self@.card_at(*coord),
    {
        match slot_of(coord) {
            Some(slot) => Some(self.cells[slot]),
            None => None,
        }
    }

    /// Whether some tile is flooded.
    pub fn has_shorable(&self) -> (found: bool)
        ensures
            found == self@.has_shorable(),
    {
        let mut i: usize = 0;
        while i < self.cells.len()
            invariant
                i <= self.cells@.len(),
                forall|j: int| 0 <= j < i ==> (#[trigger] self.cells@[j]).state
                    != IslandCardState::Flooded,
            decreases self.cells@.len() - i,
        {
            if self.cells[i].state == IslandCardState::Flooded {
                return true;
            }
            i += 1;
        }
        false
    }

    /// The flooded tiles, row by row.
    pub fn get_shorable(&self) -> (names: Vec<IslandCardName>)
        ensures
            names@ == self@.shorable(),
    {
        let ghost flooded = |card: IslandCard| card.state == IslandCardState::Flooded;
        let ghost name_of = |card: IslandCard| card.name;
        let mut names: Vec<IslandCardName> = Vec::new();
        let mut i: usize = 0;
        while i < self.cells.len()
            invariant
                i <= self.cells@.len(),
                flooded == |card: IslandCard| card.state == IslandCardState::Flooded,
                name_of == |card: IslandCard| card.name,
                names@ == self.cells@.take(i as int).filter(flooded).map_values(name_of),
            decreases self.cells@.len() - i,
        {
            broadcast use Seq::lemma_take_succ_push, Seq::lemma_filter_push, Seq::lemma_push_map_commute;

            if self.cells[i].state == IslandCardState::Flooded {
                names.push(self.cells[i].name);
            }
            i += 1;
        }
        assert(self.cells@.take(i as int) =~= self.cells@);
        names
    }
}

/// The water moves one tile by one step.  When it rises over a tile that
/// has not sunk, that tile goes one step deeper, never beyond sunk, and
/// every other tile stays as it is; when a flooded tile is shored up, it
/// is dry, and every other tile stays as it is.  A sunk tile takes no
/// more water and a tile that is not flooded is not shored up: the
/// functions that do these steps do not accept them.
pub proof fn lemma_one_tile_one_step(board: BoardView, name: IslandCardName)
    requires
        board.wf(),
    ensures
        board.card(name).state != IslandCardState::Sunk ==> board.sink(name).card(
            name,
        ).state.level() == board.card(name).state.level() + 1 && board.sink(name).card(
            name,
        ).state.level() <= 2,
        forall|other: IslandCardName|
            other != name ==> #[trigger] board.sink(name).card(other) == board.card(other),
        board.card(name).state == IslandCardState::Flooded ==> board.shore_up(
            board.location(name),
        ).card(name).state == IslandCardState::Normal,
        forall|other: IslandCardName|
            other != name ==> #[trigger] board.shore_up(board.location(name)).card(other)
                == board.card(other),
        board.sink(name).slots == board.slots,
        board.shore_up(board.location(name)).slots == board.slots,
{
    lemma_island_coords();
    crate::structs::cards::island::lemma_index_round_trip(name, 0);
    assert(spec_slot(board.location(name)) == board.slot(name));
    assert forall|other: IslandCardName| other != name implies #[trigger] board.sink(name).card(
        other,
    ) == board.card(other) && #[trigger] board.shore_up(board.location(name)).card(other)
        == board.card(other) by {
        crate::structs::cards::island::lemma_index_round_trip(other, 0);
        assert(board.cells[board.slot(other)].name == other);
    }
}

/// On a well-formed board the twenty-four tiles lie on twenty-four
/// different valid places, and every valid place holds a tile.
pub proof fn lemma_tiles_and_places(board: BoardView)
    requires
        board.wf(),
    ensures
        forall|name: IslandCardName| valid_coord(#[trigger] board.location(name)),
        forall|a: IslandCardName, b: IslandCardName|
            a != b ==> #[trigger] board.location(a) != #[trigger] board.location(b),
        forall|coord: (usize, usize)| #[trigger]
            valid_coord(coord) ==> exists|name: IslandCardName| board.location(name) == coord,
{
    lemma_island_coords();
    assert forall|name: IslandCardName| valid_coord(#[trigger] board.location(name)) by {
        crate::structs::cards::island::lemma_index_round_trip(name, 0);
    }
    assert forall|a: IslandCardName, b: IslandCardName| a != b implies #[trigger] board.location(a)
        != #[trigger] board.location(b) by {
        crate::structs::cards::island::lemma_index_round_trip(a, 0);
        crate::structs::cards::island::lemma_index_round_trip(b, 0);
        assert(board.cells[board.slot(a)].name == a);
        assert(board.cells[board.slot(b)].name == b);
    }
    assert forall|coord: (usize, usize)| #[trigger] valid_coord(coord) implies exists|
        name: IslandCardName,
    |
        board.location(name) == coord by {
        let slot = spec_slot(coord);
        let name = board.cells[slot].name;
        crate::structs::cards::island::lemma_index_round_trip(name, 0);
        assert(board.slot(name) == slot);
        assert(board.location(name) == coord);
    }
}

impl BoardView {
    /// Replacing one card changes the number of sunk tiles by what the card
    /// changes.
    pub proof fn lemma_sunk_among_update(self, slot: int, card: IslandCard, n: nat)
        requires
            0 <= slot < self.cells.len(),
            n <= self.cells.len(),
        ensures
            (BoardView { cells: self.cells.update(slot, card), ..self }).sunk_among(n) + (if slot < n
                && self.cells[slot].state == IslandCardState::Sunk {
                1nat
            } else {
                0nat
            }) == self.sunk_among(n) + (if slot < n && card.state == IslandCardState::Sunk {
                1nat
            } else {
                0nat
            }),
        decreases n,
    {
        if n > 0 {
            self.lemma_sunk_among_update(slot, card, (n - 1) as nat);
        }
    }
}

impl BoardView {
    /// One text line of the drawing of the place in column `x` and row `y`:
    /// the line of its tile, or five blanks where the place holds no tile.
    pub open spec fn cell_line(self, x: int, y: int, part: int) -> Seq<char> {
        if 0 <= x <= 5 && 0 <= y <= 5 && valid_coord((x as usize, y as usize)) {
            self.cells[spec_slot((x as usize, y as usize))].spec_tile_line(part)
        } else {
            "     "@
        }
    }

    /// One text line of the drawing of row `y`, up to column `columns`: the
    /// lines of its places, with a blank between two places.
    pub open spec fn row_line(self, y: int, part: int, columns: nat) -> Seq<char>
        decreases columns,
    {
        if columns == 0 {
            Seq::empty()
        } else if columns == 1 {
            self.cell_line(0, y, part)
        } else {
            self.row_line(y, part, (columns - 1) as nat) + " "@ + self.cell_line(
                columns - 1,
                y,
                part,
            )
        }
    }

    /// The first `lines` text lines of the drawing of the board, separated
    /// by line feeds.  Every row of the board takes three lines.
    pub open spec fn shown(self, lines: nat) -> Seq<char>
        decreases lines,
    {
        if lines == 0 {
            Seq::empty()
        } else if lines == 1 {
            self.row_line(0, 0, 6)
        } else {
            self.shown((lines - 1) as nat) + "\n"@ + self.row_line(
                (lines - 1) / 3,
                (lines - 1) % 3,
                6,
            )
        }
    }
}

impl Board {
    /// The board drawn as text: eighteen lines, three for each row.
    pub fn show(&self) -> (text: String)
        requires
            self@.wf(),
        ensures
            text@ == self@.shown(18),
    {
        let mut text = String::new();
        let mut line: usize = 0;
        while line < 18
            invariant
                line <= 18,
                self@.wf(),
                text@ == self@.shown(line as nat),
            decreases 18 - line,
        {
            let y: usize = line / 3;
            let part: usize = line % 3;
            let mut row = String::new();
            let mut x: usize = 0;
            while x < 6
                invariant
                    x <= 6,
                    y <= 5,
                    part <= 2,
                    self@.wf(),
                    row@ == self@.row_line(y as int, part as int, x as nat),
                decreases 6 - x,
            {
                if x > 0 {
                    row.append(" ");
                }
                match self.get_card(&(x, y)) {
                    Some(tile) => {
                        row.append(tile.tile_line(part).as_str());
                    },
                    None => {
                        row.append("     ");
                    },
                }
                x += 1;
            }
            if line > 0 {
                text.append("\n");
            }
            text.append(row.as_str());
            line += 1;
        }
        text
    }
}

} // verus!
