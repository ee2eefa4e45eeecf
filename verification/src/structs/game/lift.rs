//! The helicopter lift: any group of adventurers that stand together may
//! fly to any tile that has not sunk.

use vstd::prelude::*;
use vstd::string::*;

use super::chooser::{settle, settled, texts, Chooser};
use super::listing::{
    are_combinations, are_runs, combinations, is_stable_order, lemma_combinations,
    lemma_product_in_range, lemma_runs, lemma_runs_cover, lemma_stable_order_is_one, product, runs,
    spec_combinations, spec_product, spec_runs, stable_order, stable_order_of,
};
use super::model::{cards_in_hands, lemma_cards_held_same, lemma_cards_in_hands_same};
use super::moves::Action;
use super::{Game, GameView};
use crate::structs::board::{lemma_island_coords, valid_coord, ISLAND_COORDS};
use crate::structs::cards::adventurer::AdventurerView;
use crate::structs::cards::island::IslandCardState;

verus! {

/// A lift as a mathematical value: the landing place and the positions in
/// the roster of those who fly.
pub type Lift = ((usize, usize), Seq<usize>);

/// The lifts of `options` as mathematical values.
pub open spec fn lifts(options: Seq<((usize, usize), Vec<usize>)>) -> Seq<Lift> {
    options.map_values(|option: ((usize, usize), Vec<usize>)| (option.0, option.1@))
}

impl GameView {
    /// The places of the adventurers, in the order of the roster.
    pub open spec fn positions(self) -> Seq<(usize, usize)> {
        self.adventurers.map_values(|a: AdventurerView| a.pos)
    }

    /// Whether the adventurers at the positions `who` of the roster may fly
    /// to `dest` together: they are at least one, they stand on one place,
    /// and `dest` is another place whose tile has not sunk.
    pub open spec fn legal_lift(self, dest: (usize, usize), who: Seq<usize>) -> bool {
        &&& who.len() > 0
        &&& forall|i: int|
            0 <= i < who.len() ==> (#[trigger] who[i]) < self.adventurers.len()
                && self.adventurers[who[i] as int].pos == self.adventurers[who[0] as int].pos
        &&& valid_coord(dest)
        &&& self.state_at(dest) != IslandCardState::Sunk
        &&& dest != self.adventurers[who[0] as int].pos
    }

    /// The game after the adventurers at the positions `who` of the roster
    /// have flown to `dest`.
    pub open spec fn apply_lift(self, dest: (usize, usize), who: Seq<usize>) -> GameView {
        GameView {
            adventurers: Seq::new(
                self.adventurers.len(),
                |j: int|
                    if who.contains(j as usize) {
                        AdventurerView { pos: dest, ..self.adventurers[j] }
                    } else {
                        self.adventurers[j]
                    },
            ),
            ..self
        }
    }

    /// Whether a lift from `from` can land on the place `to`, which holds a
    /// tile: it is another place, and its tile has not sunk.
    pub open spec fn can_land(self, from: (usize, usize), to: (usize, usize)) -> bool {
        to != from && self.state_at(to) != IslandCardState::Sunk
    }

    /// The places where a lift from `from` can land, row by row.
    pub open spec fn landing_places(self, from: (usize, usize)) -> Seq<(usize, usize)> {
        ISLAND_COORDS@.filter(|to: (usize, usize)| self.can_land(from, to))
    }

    /// The lifts of parties of `size` among `members` to the places `dests`:
    /// for each place in turn, every party in turn.
    pub open spec fn party_options(
        dests: Seq<(usize, usize)>,
        members: Seq<usize>,
        size: nat,
    ) -> Seq<Lift> {
        let combos = spec_combinations(0, members.len(), size);
        spec_product(dests.len(), combos.len()).map_values(
            |pair: (usize, usize)|
                (
                    dests[pair.0 as int],
                    combos[pair.1 as int].map_values(|i: usize| members[i as int]),
                ),
        )
    }

    /// The lifts of the adventurers of one group, who stand on one place:
    /// parties of one first, then of two, up to the whole group.  `run`
    /// holds the group as positions in `order`, which holds positions in
    /// the roster.
    pub open spec fn group_options(self, order: Seq<usize>, run: Seq<usize>) -> Seq<Lift> {
        let members = run.map_values(|i: usize| order[i as int]);
        let dests = self.landing_places(self.adventurers[members[0] as int].pos);
        Seq::new(members.len(), |n: int| (n + 1) as nat).flat_map(
            |size: nat| Self::party_options(dests, members, size),
        )
    }

    /// The lifts on offer: the adventurers are sorted by place and grouped
    /// by place, and every group has its lifts in turn.
    pub open spec fn lift_options(self) -> Seq<Lift> {
        let order = stable_order_of(self.positions());
        let keys = order.map_values(|i: usize| self.positions()[i as int]);
        spec_runs(keys).flat_map(|run: Seq<usize>| self.group_options(order, run))
    }

}

/// Whether `option` takes a party of `members` to one of `dests`.
pub open spec fn is_party(dests: Seq<(usize, usize)>, members: Seq<usize>, option: Lift) -> bool {
    &&& dests.contains(option.0)
    &&& option.1.len() > 0
    &&& forall|i: int| 0 <= i < option.1.len() ==> members.contains(#[trigger] option.1[i])
}

impl Game {
    /// The places where a lift from `from` can land.
    pub fn landing_places(&self, from: &(usize, usize)) -> (places: Vec<(usize, usize)>)
        requires
            self@.board.wf(),
        ensures
            places@ == self@.landing_places(*from),
            forall|k: int|
                0 <= k < places@.len() ==> valid_coord(#[trigger] places@[k]) && places@[k] != *from
                    && self@.state_at(places@[k]) != IslandCardState::Sunk,
    {
        let ghost open_place = |to: (usize, usize)| self@.can_land(*from, to);
        let mut places: Vec<(usize, usize)> = Vec::new();
        let mut i: usize = 0;
        while i < 24
            invariant
                i <= 24,
                self@.board.wf(),
                open_place == |to: (usize, usize)| self@.can_land(*from, to),
                places@ == ISLAND_COORDS@.take(i as int).filter(open_place),
                forall|k: int|
                    0 <= k < places@.len() ==> valid_coord(#[trigger] places@[k]) && places@[k]
                        != *from && self@.state_at(places@[k]) != IslandCardState::Sunk,
            decreases 24 - i,
        {
            broadcast use Seq::lemma_take_succ_push, Seq::lemma_filter_push;

            proof {
                lemma_island_coords();
            }
            let to = ISLAND_COORDS[i];
            let tile = self.board.cells[i];
            if !(to.0 == from.0 && to.1 == from.1) && tile.state != IslandCardState::Sunk {
                places.push(to);
            }
            i += 1;
        }
        assert(ISLAND_COORDS@.len() == 24);
        assert(ISLAND_COORDS@.take(24) =~= ISLAND_COORDS@);
        places
    }

    /// The lifts of parties of `size` among `members` to the places `dests`.
    pub fn party_options(dests: &Vec<(usize, usize)>, members: &Vec<usize>, size: usize) -> (options:
        Vec<((usize, usize), Vec<usize>)>)
        requires
            size > 0,
        ensures
            lifts(options@) == GameView::party_options(dests@, members@, size as nat),
            forall|k: int|
                0 <= k < options@.len() ==> is_party(dests@, members@, #[trigger] lifts(options@)[k]),
            dests@.len() > 0 && size <= members@.len() ==> options@.len() > 0,
    {
        let combos = combinations(members.len(), size);
        let pairs = product(dests.len(), combos.len());
        proof {
            lemma_combinations(0, members@.len(), size as nat);
            if dests@.len() > 0 && size <= members@.len() {
                assert(combos@.map_values(|combo: Vec<usize>| combo@).len() > 0);
                assert(dests@.len() * combos@.len() > 0) by (nonlinear_arith)
                    requires
                        dests@.len() > 0,
                        combos@.len() > 0,
                ;
            }
        }
        let ghost picks = combos@.map_values(|combo: Vec<usize>| combo@);
        let ghost party = |pair: (usize, usize)|
            (dests@[pair.0 as int], picks[pair.1 as int].map_values(|i: usize| members@[i as int]));
        let mut options: Vec<((usize, usize), Vec<usize>)> = Vec::new();
        let mut t: usize = 0;
        while t < pairs.len()
            invariant
                t <= pairs@.len(),
                size > 0,
                dests@.len() <= usize::MAX,
                combos@.len() <= usize::MAX,
                pairs@ == spec_product(dests@.len(), combos@.len()),
                picks == combos@.map_values(|combo: Vec<usize>| combo@),
                picks == spec_combinations(0, members@.len(), size as nat),
                are_combinations(members@.len(), size as nat, picks),
                party == |pair: (usize, usize)|
                    (
                        dests@[pair.0 as int],
                        picks[pair.1 as int].map_values(|i: usize| members@[i as int]),
                    ),
                lifts(options@) == pairs@.take(t as int).map_values(party),
                forall|k: int|
                    0 <= k < options@.len() ==> is_party(
                        dests@,
                        members@,
                        #[trigger] lifts(options@)[k],
                    ),
            decreases pairs@.len() - t,
        {
            proof {
                lemma_product_in_range(dests@.len(), combos@.len(), t as int);
            }
            let (d, c) = pairs[t];
            let combo = &combos[c];
            assert(combo@ == picks[c as int]);
            let ghost member = |i: usize| members@[i as int];
            let mut who: Vec<usize> = Vec::new();
            let mut i: usize = 0;
            while i < combo.len()
                invariant
                    i <= combo@.len(),
                    member == |i: usize| members@[i as int],
                    forall|j: int| 0 <= j < combo@.len() ==> (#[trigger] combo@[j]) < members@.len(),
                    who@ == combo@.take(i as int).map_values(member),
                    forall|j: int| 0 <= j < who@.len() ==> members@.contains(#[trigger] who@[j]),
                decreases combo@.len() - i,
            {
                broadcast use Seq::lemma_take_succ_push, Seq::lemma_push_map_commute;

                who.push(members[combo[i]]);
                i += 1;
            }
            assert(combo@.take(i as int) =~= combo@);
            let ghost before = options@;
            options.push((dests[d], who));
            proof {
                let option = (dests@[d as int], who@);
                assert(lifts(options@) =~= lifts(before).push(option));
                assert(pairs@.take(t + 1) =~= pairs@.take(t as int).push(pairs@[t as int]));
                pairs@.take(t as int).lemma_push_map_commute(party, pairs@[t as int]);
                assert(party(pairs@[t as int]) == option);
                assert(is_party(dests@, members@, option));
                assert forall|k: int| 0 <= k < options@.len() implies is_party(
                    dests@,
                    members@,
                    #[trigger] lifts(options@)[k],
                ) by {
                    if k < before.len() {
                        assert(lifts(options@)[k] == lifts(before)[k]);
                    }
                }
            }
            t += 1;
        }
        assert(pairs@.take(t as int) =~= pairs@);
        assert(lifts(options@).len() == pairs@.len());
        options
    }
}

impl Game {
    /// The lifts of the adventurers of one group.  `run` holds the group as
    /// positions in `order`, which holds positions in the roster.
    pub fn group_options(&self, order: &Vec<usize>, run: &Vec<usize>) -> (options: Vec<
        ((usize, usize), Vec<usize>),
    >)
        requires
            self@.wf(),
            run@.len() > 0,
            forall|i: int| 0 <= i < run@.len() ==> (#[trigger] run@[i]) < order@.len(),
            forall|i: int| 0 <= i < order@.len() ==> (#[trigger] order@[i]) < self@.adventurers.len(),
            forall|i: int|
                0 <= i < run@.len() ==> self@.adventurers[order@[(#[trigger] run@[i]) as int] as int].pos
                    == self@.adventurers[order@[run@[0] as int] as int].pos,
        ensures
            lifts(options@) == self@.group_options(order@, run@),
            forall|k: int|
                0 <= k < options@.len() ==> self@.legal_lift(
                    (#[trigger] lifts(options@)[k]).0,
                    lifts(options@)[k].1,
                ),
            self@.landing_places(self@.adventurers[order@[run@[0] as int] as int].pos).len() > 0
                ==> options@.len() > 0,
    {
        let ghost seat = |i: usize| order@[i as int];
        let ghost from = self@.adventurers[order@[run@[0] as int] as int].pos;
        let mut members: Vec<usize> = Vec::new();
        let mut i: usize = 0;
        while i < run.len()
            invariant
                i <= run@.len(),
                seat == |i: usize| order@[i as int],
                forall|i: int| 0 <= i < run@.len() ==> (#[trigger] run@[i]) < order@.len(),
                forall|i: int|
                    0 <= i < order@.len() ==> (#[trigger] order@[i]) < self@.adventurers.len(),
                forall|i: int|
                    0 <= i < run@.len() ==> self@.adventurers[order@[(
                    #[trigger] run@[i]) as int] as int].pos == from,
                members@ == run@.take(i as int).map_values(seat),
                forall|j: int|
                    0 <= j < members@.len() ==> (#[trigger] members@[j]) < self@.adventurers.len()
                        && self@.adventurers[members@[j] as int].pos == from,
            decreases run@.len() - i,
        {
            broadcast use Seq::lemma_take_succ_push, Seq::lemma_push_map_commute;

            members.push(order[run[i]]);
            i += 1;
        }
        assert(run@.take(i as int) =~= run@);
        assert(self@.adventurers[members@[0] as int] == self.adventurers@[members@[0] as int]@);
        let start = self.adventurers[members[0]].pos;
        let dests = self.landing_places(&start);
        let ghost sizes = Seq::new(members@.len(), |n: int| (n + 1) as nat);
        let ghost parties = |size: nat| GameView::party_options(dests@, members@, size);
        let mut options: Vec<((usize, usize), Vec<usize>)> = Vec::new();
        let mut done: usize = 0;
        proof {
            super::model::lemma_flat_map_of_none(sizes, parties);
        }
        while done < members.len()
            invariant
                done <= members@.len(),
                self@.wf(),
                start == from,
                sizes == Seq::new(members@.len(), |n: int| (n + 1) as nat),
                parties == |size: nat| GameView::party_options(dests@, members@, size),
                forall|k: int|
                    0 <= k < dests@.len() ==> valid_coord(#[trigger] dests@[k]) && dests@[k] != from
                        && self@.state_at(dests@[k]) != IslandCardState::Sunk,
                members@.len() > 0,
                forall|j: int|
                    0 <= j < members@.len() ==> (#[trigger] members@[j]) < self@.adventurers.len()
                        && self@.adventurers[members@[j] as int].pos == from,
                lifts(options@) == sizes.take(done as int).flat_map(parties),
                forall|k: int|
                    0 <= k < options@.len() ==> self@.legal_lift(
                        (#[trigger] lifts(options@)[k]).0,
                        lifts(options@)[k].1,
                    ),
                done > 0 && dests@.len() > 0 ==> options@.len() > 0,
            decreases members@.len() - done,
        {
            let size: usize = done + 1;
            let mut part = Self::party_options(&dests, &members, size);
            let ghost before = options@;
            let ghost added = part@;
            proof {
                assert forall|k: int| 0 <= k < added.len() implies self@.legal_lift(
                    (#[trigger] lifts(added)[k]).0,
                    lifts(added)[k].1,
                ) by {
                    let option = lifts(added)[k];
                    assert(is_party(dests@, members@, option));
                    let d = choose|d: int| 0 <= d < dests@.len() && dests@[d] == option.0;
                    assert(valid_coord(dests@[d]));
                    assert forall|i: int| 0 <= i < option.1.len() implies (#[trigger] option.1[i])
                        < self@.adventurers.len() && self@.adventurers[option.1[i] as int].pos
                        == from by {
                        assert(members@.contains(option.1[i]));
                        let m = choose|m: int| 0 <= m < members@.len() && members@[m] == option.1[i];
                        assert(members@[m] < self@.adventurers.len());
                    }
                    assert(option.1[0] < self@.adventurers.len());
                }
            }
            options.append(&mut part);
            proof {
                assert(lifts(options@) =~= lifts(before) + lifts(added));
                assert(sizes.take(done + 1) =~= sizes.take(done as int).push(size as nat));
                sizes.take(done as int).lemma_flat_map_push(parties, size as nat);
                assert forall|k: int| 0 <= k < options@.len() implies self@.legal_lift(
                    (#[trigger] lifts(options@)[k]).0,
                    lifts(options@)[k].1,
                ) by {
                    if k < before.len() {
                        assert(lifts(options@)[k] == lifts(before)[k]);
                    } else {
                        assert(lifts(options@)[k] == lifts(added)[k - before.len()]);
                    }
                }
            }
            done += 1;
        }
        assert(sizes.take(members@.len() as int) =~= sizes);
        options
    }

    /// The lifts on offer.
    pub fn helicopter_options(&self) -> (options: Vec<((usize, usize), Vec<usize>)>)
        requires
            self@.wf(),
        ensures
            lifts(options@) == self@.lift_options(),
            forall|k: int|
                0 <= k < options@.len() ==> self@.legal_lift(
                    (#[trigger] lifts(options@)[k]).0,
                    lifts(options@)[k].1,
                ),
            forall|who: int, dest: (usize, usize)|
                0 <= who < self@.adventurers.len() && valid_coord(dest) && #[trigger] self@.can_land(
                    self@.adventurers[who].pos,
                    dest,
                ) ==> options@.len() > 0,
    {
        let ghost place = |a: AdventurerView| a.pos;
        let mut positions: Vec<(usize, usize)> = Vec::new();
        let mut a: usize = 0;
        while a < self.adventurers.len()
            invariant
                a <= self.adventurers@.len(),
                place == |a: AdventurerView| a.pos,
                positions@ == self@.adventurers.take(a as int).map_values(place),
            decreases self.adventurers@.len() - a,
        {
            broadcast use Seq::lemma_take_succ_push, Seq::lemma_push_map_commute;

            assert(self@.adventurers[a as int] == self.adventurers@[a as int]@);
            positions.push(self.adventurers[a].pos);
            a += 1;
        }
        assert(self@.adventurers.take(a as int) =~= self@.adventurers);
        let order = stable_order(&positions);
        proof {
            lemma_stable_order_is_one(positions@, order@);
        }
        let ghost key = |i: usize| positions@[i as int];
        let mut keys: Vec<(usize, usize)> = Vec::new();
        let mut i: usize = 0;
        while i < order.len()
            invariant
                i <= order@.len(),
                key == |i: usize| positions@[i as int],
                is_stable_order(positions@, order@),
                keys@ == order@.take(i as int).map_values(key),
            decreases order@.len() - i,
        {
            broadcast use Seq::lemma_take_succ_push, Seq::lemma_push_map_commute;

            keys.push(positions[order[i]]);
            i += 1;
        }
        assert(order@.take(i as int) =~= order@);
        let groups = runs(&keys);
        proof {
            lemma_runs(keys@);
        }
        let ghost all = groups@.map_values(|run: Vec<usize>| run@);
        let ghost of_group = |run: Seq<usize>| self@.group_options(order@, run);
        let mut options: Vec<((usize, usize), Vec<usize>)> = Vec::new();
        let mut g: usize = 0;
        proof {
            super::model::lemma_flat_map_of_none(all, of_group);
        }
        while g < groups.len()
            invariant
                g <= groups@.len(),
                self@.wf(),
                all == groups@.map_values(|run: Vec<usize>| run@),
                of_group == |run: Seq<usize>| self@.group_options(order@, run),
                positions@ == self@.positions(),
                is_stable_order(positions@, order@),
                keys@ == order@.map_values(|i: usize| positions@[i as int]),
                are_runs(keys@, all),
                lifts(options@) == all.take(g as int).flat_map(of_group),
                forall|k: int|
                    0 <= k < options@.len() ==> self@.legal_lift(
                        (#[trigger] lifts(options@)[k]).0,
                        lifts(options@)[k].1,
                    ),
                forall|h: int|
                    0 <= h < g && self@.landing_places(
                        self@.adventurers[order@[(#[trigger] all[h])[0] as int] as int].pos,
                    ).len() > 0 ==> options@.len() > 0,
            decreases groups@.len() - g,
        {
            let run = &groups[g];
            proof {
                assert(all[g as int] == run@);
                assert forall|i: int| 0 <= i < run@.len() implies self@.adventurers[order@[(
                #[trigger] run@[i]) as int] as int].pos
                    == self@.adventurers[order@[run@[0] as int] as int].pos by {
                    assert(all[g as int][i] == run@[i]);
                    assert(keys@[run@[i] as int] == keys@[run@[0] as int]);
                }
                assert forall|i: int| 0 <= i < run@.len() implies (#[trigger] run@[i])
                    < order@.len() by {
                    assert(all[g as int][i] == run@[i]);
                }
            }
            let mut part = self.group_options(&order, run);
            let ghost before = options@;
            let ghost added = part@;
            options.append(&mut part);
            proof {
                assert(lifts(options@) =~= lifts(before) + lifts(added));
                assert(all.take(g + 1) =~= all.take(g as int).push(run@));
                all.take(g as int).lemma_flat_map_push(of_group, run@);
                assert forall|k: int| 0 <= k < options@.len() implies self@.legal_lift(
                    (#[trigger] lifts(options@)[k]).0,
                    lifts(options@)[k].1,
                ) by {
                    if k < before.len() {
                        assert(lifts(options@)[k] == lifts(before)[k]);
                    } else {
                        assert(lifts(options@)[k] == lifts(added)[k - before.len()]);
                    }
                }
            }
            g += 1;
        }
        assert(all.take(g as int) =~= all);
        proof {
            lemma_island_coords();
            assert forall|who: int, dest: (usize, usize)|
                0 <= who < self@.adventurers.len() && valid_coord(dest) && #[trigger] self@.can_land(
                    self@.adventurers[who].pos,
                    dest,
                ) implies options@.len() > 0 by {
                assert(positions@.len() == self@.adventurers.len());
                assert(order@.contains(who as usize));
                let p = choose|p: int| 0 <= p < order@.len() && order@[p] == who as usize;
                lemma_runs_cover(keys@, p);
                let (h, i) = choose|h: int, i: int|
                    0 <= h < all.len() && 0 <= i < all[h].len() && #[trigger] all[h][i] == p;
                assert(keys@[all[h][i] as int] == keys@[all[h][0] as int]);
                let from = self@.adventurers[order@[all[h][0] as int] as int].pos;
                assert(from == self@.adventurers[who].pos);
                let open_place = |to: (usize, usize)| self@.can_land(from, to);
                let slot = crate::structs::board::spec_slot(dest);
                assert(ISLAND_COORDS@[slot] == dest);
                ISLAND_COORDS@.lemma_filter_contains(open_place, slot);
                assert(self@.landing_places(from).contains(dest));
            }
        }
        options
    }
}

impl GameView {
    /// The names of the roles of the adventurers at the positions `who` of
    /// the roster, separated by commas.
    pub open spec fn party_names(self, who: Seq<usize>) -> Seq<char>
        decreases who.len(),
    {
        if who.len() == 0 {
            Seq::empty()
        } else if who.len() == 1 {
            self.adventurers[who[0] as int].role.spec_name()
        } else {
            self.party_names(who.drop_last()) + ", "@ + self.adventurers[who.last() as int].role.spec_name()
        }
    }

    /// The text that offers the lift `option`.
    pub open spec fn lift_label(self, option: Lift) -> Seq<char> {
        "Move "@ + self.party_names(option.1) + " to "@ + self.place_name(option.0)
    }
}

impl Game {
    /// The text that offers the lift of the adventurers `who` to `dest`.
    pub fn lift_label(&self, dest: &(usize, usize), who: &Vec<usize>) -> (text: String)
        requires
            self@.board.wf(),
            forall|i: int| 0 <= i < who@.len() ==> (#[trigger] who@[i]) < self@.adventurers.len(),
        ensures
            text@ == self@.lift_label((*dest, who@)),
    {
        let mut names = String::new();
        let mut i: usize = 0;
        while i < who.len()
            invariant
                i <= who@.len(),
                forall|i: int| 0 <= i < who@.len() ==> (#[trigger] who@[i]) < self@.adventurers.len(),
                names@ == self@.party_names(who@.take(i as int)),
            decreases who@.len() - i,
        {
            assert(who@.take(i + 1).drop_last() =~= who@.take(i as int));
            assert(self@.adventurers[who@[i as int] as int] == self.adventurers@[who@[i as int] as int]@);
            if i > 0 {
                names.append(", ");
            }
            names.append(self.adventurers[who[i]].card.name().as_str());
            i += 1;
        }
        assert(who@.take(i as int) =~= who@);
        let mut text = String::from_str("Move ");
        text.append(names.as_str());
        text.append(" to ");
        text.append(self.place_name(dest).as_str());
        text
    }

    /// Flies the adventurers at the positions `who` of the roster to `dest`.
    pub fn apply_lift(&mut self, dest: (usize, usize), who: &Vec<usize>)
        requires
            old(self)@.wf(),
            valid_coord(dest),
            forall|i: int| 0 <= i < who@.len() ==> (#[trigger] who@[i]) < old(self)@.adventurers.len(),
        ensures
            final(self)@ == old(self)@.apply_lift(dest, who@),
            final(self)@.wf(),
    {
        let ghost before = self@;
        let mut i: usize = 0;
        assert(self@.adventurers =~= before.apply_lift(dest, who@.take(0)).adventurers);
        while i < who.len()
            invariant
                i <= who@.len(),
                before.wf(),
                valid_coord(dest),
                forall|i: int| 0 <= i < who@.len() ==> (#[trigger] who@[i]) < before.adventurers.len(),
                self.adventurers@.len() == before.adventurers.len(),
                self@ == before.apply_lift(dest, who@.take(i as int)),
            decreases who@.len() - i,
        {
            let ghost so_far = self@;
            let ghost roster = self.adventurers@;
            assert(self@.adventurers[who@[i as int] as int] == self.adventurers@[who@[i as int] as int]@);
            self.adventurers[who[i]].move_to(dest);
            assert(forall|j: int|
                0 <= j < roster.len() && j != who@[i as int] ==> self.adventurers@[j] == roster[j]);
            assert(forall|j: int| 0 <= j < roster.len() ==> so_far.adventurers[j] == roster[j]@);
            proof {
                let next = who@.take(i + 1);
                let prev = who@.take(i as int);
                let reached = before.apply_lift(dest, next);
                assert(next[i as int] == who@[i as int]);
                let moved = who@[i as int] as int;
                assert forall|j: int| 0 <= j < before.adventurers.len() implies self@.adventurers[j]
                    == reached.adventurers[j] by {
                    assert(self@.adventurers[j] == self.adventurers@[j]@);
                    assert(so_far.adventurers[j] == if prev.contains(j as usize) {
                        AdventurerView { pos: dest, ..before.adventurers[j] }
                    } else {
                        before.adventurers[j]
                    });
                    if j == moved {
                        assert(next[i as int] == j as usize);
                        assert(next.contains(j as usize));
                        assert(self@.adventurers[j] == (AdventurerView {
                            pos: dest,
                            ..so_far.adventurers[j]
                        }));
                    } else {
                        assert(self@.adventurers[j] == so_far.adventurers[j]);
                        if next.contains(j as usize) {
                            let at = choose|at: int| 0 <= at < next.len() && next[at] == j as usize;
                            assert(prev[at] == j as usize);
                        } else if prev.contains(j as usize) {
                            let at = choose|at: int| 0 <= at < prev.len() && prev[at] == j as usize;
                            assert(next[at] == j as usize);
                        }
                    }
                }
                assert(self@.adventurers =~= reached.adventurers);
            }
            i += 1;
        }
        proof {
            assert(who@.take(i as int) =~= who@);
            lemma_cards_in_hands_same(before.adventurers, self@.adventurers);
            lemma_cards_held_same(before.adventurers, self@.adventurers);
        }
    }

    /// The special card "helicopter lift": one of the lifts on offer is
    /// made.  A single lift is made without asking, and where none is on
    /// offer nothing happens.
    pub fn helicopter_lift<C: Chooser>(&mut self, chooser: &mut C)
        requires
            old(self)@.wf(),
        ensures
            final(self)@.wf(),
            final(self)@.acted_from(old(self)@),
            cards_in_hands(final(self)@.adventurers) == cards_in_hands(old(self)@.adventurers),
            final(self)@.lifted_by(old(self)@, *old(chooser), *final(chooser)),
            forall|who: int, dest: (usize, usize)|
                0 <= who < old(self)@.adventurers.len() && valid_coord(dest) && #[trigger] old(
                    self,
                )@.can_land(old(self)@.adventurers[who].pos, dest) ==> old(self)@.lift_options().len()
                    > 0,
    {
        let options = self.helicopter_options();
        assert(lifts(options@).len() == options@.len());
        if options.len() == 0 {
            return;
        }
        let mut labels: Vec<String> = Vec::new();
        let mut i: usize = 0;
        while i < options.len()
            invariant
                i <= options@.len(),
                self@.wf(),
                forall|k: int|
                    0 <= k < options@.len() ==> self@.legal_lift(
                        (#[trigger] lifts(options@)[k]).0,
                        lifts(options@)[k].1,
                    ),
                labels@.len() == i,
                forall|k: int|
                    0 <= k < i ==> (#[trigger] labels@[k])@ == self@.lift_label(lifts(options@)[k]),
            decreases options@.len() - i,
        {
            assert(self@.legal_lift(lifts(options@)[i as int].0, lifts(options@)[i as int].1));
            labels.push(self.lift_label(&options[i].0, &options[i].1));
            i += 1;
        }
        assert(texts(labels@) =~= self@.lift_labels());
        let choice = settle(chooser, Action::HelicopterLift, &labels);
        assert(self@.legal_lift(lifts(options@)[choice as int].0, lifts(options@)[choice as int].1));
        self.apply_lift(options[choice].0, &options[choice].1);
        assert(self@ == old(self)@.apply_lift(
            old(self)@.lift_options()[choice as int].0,
            old(self)@.lift_options()[choice as int].1,
        ));
        proof {
            lemma_cards_in_hands_same(self@.adventurers, old(self)@.adventurers);
        }
    }
}

impl GameView {
    /// The lifts on offer, as text.
    pub open spec fn lift_labels(self) -> Seq<Seq<char>> {
        self.lift_options().map_values(|option: Lift| self.lift_label(option))
    }

    /// Whether the game is `self` after a helicopter lift played in
    /// `before`, decided by a source that went from `source` to `after`: the
    /// decision among the lifts on offer is settled, and the lift settled on
    /// is made.  Where no lift is on offer nothing happens, and the source
    /// is not asked.
    pub open spec fn lifted_by<C: Chooser>(self, before: GameView, source: C, after: C) -> bool {
        if before.lift_options().len() == 0 {
            self == before && after == source
        } else {
            exists|k: int|
                #![trigger before.lift_options()[k]]
                0 <= k < before.lift_options().len() && settled(
                    source,
                    after,
                    Action::HelicopterLift,
                    before.lift_labels(),
                    k,
                ) && self == before.apply_lift(
                    before.lift_options()[k].0,
                    before.lift_options()[k].1,
                )
        }
    }
}

} // verus!
