//! Orderings and groupings of positions, computed by `itertools`.
//!
//! The functions of this file hand plain numbers to `itertools` and take
//! plain numbers back.  Their contracts are taken from the documentation
//! of `itertools` and are believed, not proved.

use itertools::Itertools;
use vstd::prelude::*;

verus! {

/// The positions of `codes` whose code occurs at no earlier position, in
/// rising order.
pub open spec fn spec_first_of_each(codes: Seq<u8>) -> Seq<usize> {
    Seq::new(codes.len(), |i: int| i as usize).filter(
        |i: usize| forall|j: int| 0 <= j < i ==> codes[j] != codes[i as int],
    )
}

/// Calls `Itertools::unique_by` on the positions `0..codes.len()`, keyed by
/// the code at each position.  `unique_by` keeps the first item of every key
/// and drops the later ones, without changing the order of what it keeps:
/// the result is the list of positions that hold the first occurrence of
/// their code.
#[verifier::external_body]
pub(crate) fn first_of_each(codes: &Vec<u8>) -> (firsts: Vec<usize>)
    ensures
        firsts@ == spec_first_of_each(codes@),
{
    (0..codes.len()).unique_by(|&i| codes[i]).collect()
}

/// Whether key `a` comes before key `b`: by the first number, then by the
/// second.  This is the order that the standard library gives to pairs.
pub open spec fn key_before(a: (usize, usize), b: (usize, usize)) -> bool {
    a.0 < b.0 || (a.0 == b.0 && a.1 < b.1)
}

/// Whether `order` lists the positions of `keys`, each once, by rising key,
/// and positions with the same key by rising position.
pub open spec fn is_stable_order(keys: Seq<(usize, usize)>, order: Seq<usize>) -> bool {
    &&& order.len() == keys.len()
    &&& forall|i: int| 0 <= i < order.len() ==> (#[trigger] order[i]) < keys.len()
    &&& forall|position: usize| position < keys.len() ==> #[trigger] order.contains(position)
    &&& forall|i: int, j: int|
        0 <= i < j < order.len() ==> key_before(
            keys[(#[trigger] order[i]) as int],
            keys[(#[trigger] order[j]) as int],
        ) || (keys[order[i] as int] == keys[order[j] as int] && order[i] < order[j])
}

/// The positions of `keys` in the order in which a stable sort by key
/// leaves them.
pub open spec fn stable_order_of(keys: Seq<(usize, usize)>) -> Seq<usize> {
    choose|order: Seq<usize>| is_stable_order(keys, order)
}

/// Two stable orders of the same keys agree at every place.
pub proof fn lemma_stable_orders_agree(
    keys: Seq<(usize, usize)>,
    a: Seq<usize>,
    b: Seq<usize>,
    place: int,
)
    requires
        is_stable_order(keys, a),
        is_stable_order(keys, b),
        0 <= place < keys.len(),
    ensures
        a[place] == b[place],
    decreases place,
{
    if a[place] != b[place] {
        assert(b.contains(a[place]));
        let q = choose|q: int| 0 <= q < b.len() && b[q] == a[place];
        if q < place {
            lemma_stable_orders_agree(keys, a, b, q);
            assert(a[q] == a[place]);
        }
        assert(a.contains(b[place]));
        let r = choose|r: int| 0 <= r < a.len() && a[r] == b[place];
        if r < place {
            lemma_stable_orders_agree(keys, a, b, r);
            assert(b[r] == b[place]);
        }
        assert(place < q && place < r);
        assert(key_before(keys[b[place] as int], keys[b[q] as int]) || (keys[b[place] as int]
            == keys[b[q] as int] && b[place] < b[q]));
        assert(key_before(keys[a[place] as int], keys[a[r] as int]) || (keys[a[place] as int]
            == keys[a[r] as int] && a[place] < a[r]));
    }
}

/// There is one stable order of given keys: every stable order of `keys`
/// is [`stable_order_of`] them.
pub proof fn lemma_stable_order_is_one(keys: Seq<(usize, usize)>, order: Seq<usize>)
    requires
        is_stable_order(keys, order),
    ensures
        order == stable_order_of(keys),
{
    let chosen = stable_order_of(keys);
    assert(is_stable_order(keys, chosen));
    assert forall|place: int| 0 <= place < order.len() implies order[place] == chosen[place] by {
        lemma_stable_orders_agree(keys, order, chosen, place);
    }
    assert(order =~= chosen);
}

/// Calls `Itertools::sorted_by_key` on the positions `0..keys.len()`, keyed
/// by the key at each position.  `sorted_by_key` sorts with the standard
/// library's stable `sort_by_key`: the result holds every position once,
/// by rising key, and positions with equal keys stay in rising order.
#[verifier::external_body]
pub(crate) fn stable_order(keys: &Vec<(usize, usize)>) -> (order: Vec<usize>)
    ensures
        is_stable_order(keys@, order@),
{
    (0..keys.len()).sorted_by_key(|&i| keys[i]).collect()
}

/// The runs of `keys`: the positions of `keys` in rising order, cut wherever
/// the key differs from the key before.
pub open spec fn spec_runs(keys: Seq<(usize, usize)>) -> Seq<Seq<usize>>
    decreases keys.len(),
{
    if keys.len() == 0 {
        Seq::empty()
    } else {
        let before = spec_runs(keys.drop_last());
        let last = (keys.len() - 1) as usize;
        if keys.len() >= 2 && keys[keys.len() - 2] == keys[keys.len() - 1] {
            before.drop_last().push(before.last().push(last))
        } else {
            before.push(seq![last])
        }
    }
}

/// What is used of the runs of `keys`: no run is empty, every run holds
/// positions of `keys`, and the keys at the positions of one run are equal.
pub open spec fn are_runs(keys: Seq<(usize, usize)>, groups: Seq<Seq<usize>>) -> bool {
    &&& forall|g: int| 0 <= g < groups.len() ==> (#[trigger] groups[g]).len() > 0
    &&& forall|g: int, i: int|
        0 <= g < groups.len() && 0 <= i < groups[g].len() ==> (#[trigger] groups[g][i])
            < keys.len()
    &&& forall|g: int, i: int|
        0 <= g < groups.len() && 0 <= i < groups[g].len() ==> keys[(
        #[trigger] groups[g][i]) as int] == keys[groups[g][0] as int]
}

/// The runs of keys are not empty, hold positions of the keys, and have one
/// key each; where there are keys there are runs, and the last run ends
/// with the last position.
pub proof fn lemma_runs(keys: Seq<(usize, usize)>)
    requires
        keys.len() <= usize::MAX,
    ensures
        are_runs(keys, spec_runs(keys)),
        keys.len() > 0 ==> spec_runs(keys).len() > 0 && spec_runs(keys).last().len() > 0
            && spec_runs(keys).last().last() == keys.len() - 1,
        keys.len() == 0 ==> spec_runs(keys).len() == 0,
    decreases keys.len(),
{
    if keys.len() > 0 {
        let shorter = keys.drop_last();
        lemma_runs(shorter);
        let before = spec_runs(shorter);
        let runs = spec_runs(keys);
        let last = (keys.len() - 1) as usize;
        if keys.len() >= 2 && keys[keys.len() - 2] == keys[keys.len() - 1] {
            let grown = before.last().push(last);
            assert(runs == before.drop_last().push(grown));
            assert forall|g: int, i: int| 0 <= g < runs.len() && 0 <= i < runs[g].len() implies (
            #[trigger] runs[g][i]) < keys.len() && keys[runs[g][i] as int]
                == keys[runs[g][0] as int] by {
                if g < runs.len() - 1 {
                    assert(runs[g] == before[g]);
                    assert(before[g][i] < shorter.len());
                    assert(shorter[before[g][i] as int] == shorter[before[g][0] as int]);
                } else {
                    assert(runs[g] == grown);
                    let open_run = before.last();
                    assert(open_run == before[before.len() - 1]);
                    assert(open_run[0] < shorter.len());
                    assert(shorter[open_run.last() as int] == shorter[open_run[0] as int]);
                    if i < open_run.len() {
                        assert(open_run[i] < shorter.len());
                        assert(shorter[open_run[i] as int] == shorter[open_run[0] as int]);
                    }
                }
            }
            assert forall|g: int| 0 <= g < runs.len() implies (#[trigger] runs[g]).len() > 0 by {
                if g < runs.len() - 1 {
                    assert(runs[g] == before[g]);
                }
            }
        } else {
            assert(runs == before.push(seq![last]));
            assert forall|g: int, i: int| 0 <= g < runs.len() && 0 <= i < runs[g].len() implies (
            #[trigger] runs[g][i]) < keys.len() && keys[runs[g][i] as int]
                == keys[runs[g][0] as int] by {
                if g < runs.len() - 1 {
                    assert(runs[g] == before[g]);
                    assert(before[g][i] < shorter.len());
                    assert(shorter[before[g][i] as int] == shorter[before[g][0] as int]);
                }
            }
            assert forall|g: int| 0 <= g < runs.len() implies (#[trigger] runs[g]).len() > 0 by {
                if g < runs.len() - 1 {
                    assert(runs[g] == before[g]);
                }
            }
        }
    }
}

/// Every position of the keys lies in one of their runs.
pub proof fn lemma_runs_cover(keys: Seq<(usize, usize)>, position: int)
    requires
        keys.len() <= usize::MAX,
        0 <= position < keys.len(),
    ensures
        exists|g: int, i: int|
            0 <= g < spec_runs(keys).len() && 0 <= i < spec_runs(keys)[g].len() && #[trigger] spec_runs(
                keys,
            )[g][i] == position,
    decreases keys.len(),
{
    let shorter = keys.drop_last();
    let before = spec_runs(shorter);
    let runs = spec_runs(keys);
    lemma_runs(keys);
    lemma_runs(shorter);
    if position == keys.len() - 1 {
        let g = runs.len() - 1;
        let i = runs[g].len() - 1;
        assert(runs[g][i] == position);
    } else {
        lemma_runs_cover(shorter, position);
        let (g, i) = choose|g: int, i: int|
            0 <= g < before.len() && 0 <= i < before[g].len() && #[trigger] before[g][i]
                == position;
        if keys.len() >= 2 && keys[keys.len() - 2] == keys[keys.len() - 1] {
            if g == before.len() - 1 {
                assert(runs[g] == before.last().push((keys.len() - 1) as usize));
                assert(runs[g][i] == position);
            } else {
                assert(runs[g] == before[g]);
                assert(runs[g][i] == position);
            }
        } else {
            assert(runs[g] == before[g]);
            assert(runs[g][i] == position);
        }
    }
}

/// Calls `Itertools::group_by` on the positions `0..keys.len()`, keyed by
/// the key at each position, and collects each group.  `group_by` puts
/// consecutive items with the same key into one group, which is what
/// [`spec_runs`] says: a new run starts wherever the key changes.
#[verifier::external_body]
pub(crate) fn runs(keys: &Vec<(usize, usize)>) -> (groups: Vec<Vec<usize>>)
    ensures
        groups@.map_values(|run: Vec<usize>| run@) == spec_runs(keys@),
{
    let grouped = (0..keys.len()).group_by(|&i| keys[i]);
    (&grouped).into_iter().map(|(_, run)| run.collect()).collect()
}

/// The ways to pick `k` of the positions `from..n`, each way as the list
/// of the positions picked in rising order.  The ways that pick the first
/// position come first, in the order of the ways to pick the rest; the
/// ways that leave it out follow.
pub open spec fn spec_combinations(from: nat, n: nat, k: nat) -> Seq<Seq<usize>>
    decreases n - from,
{
    if k == 0 {
        seq![Seq::empty()]
    } else if from >= n {
        Seq::empty()
    } else {
        spec_combinations(from + 1, n, (k - 1) as nat).map_values(
            |rest: Seq<usize>| seq![from as usize] + rest,
        ) + spec_combinations(from + 1, n, k)
    }
}

/// What is used of the ways to pick `k` of the positions `from..n`: there
/// is a way unless `k` is more than their number, the first way picks the
/// first `k` positions, and each way holds `k` of the positions, in rising
/// order.
pub open spec fn are_picks(from: nat, n: nat, k: nat, combos: Seq<Seq<usize>>) -> bool {
    &&& k + from <= n ==> combos.len() > 0 && combos[0] == Seq::new(
        k,
        |i: int| (from + i) as usize,
    )
    &&& forall|c: int| 0 <= c < combos.len() ==> (#[trigger] combos[c]).len() == k
    &&& forall|c: int, i: int|
        0 <= c < combos.len() && 0 <= i < combos[c].len() ==> from <= (#[trigger] combos[c][i])
            < n
    &&& forall|c: int, i: int, j: int|
        0 <= c < combos.len() && 0 <= i < j < combos[c].len() ==> (#[trigger] combos[c][i]) < (
        #[trigger] combos[c][j])
}

/// What is used of the ways to pick `k` of `n` positions: there is a way
/// unless `k` is more than `n`, the first way picks the first `k`
/// positions, and each way holds `k` positions below `n`, in rising order.
pub open spec fn are_combinations(n: nat, k: nat, combos: Seq<Seq<usize>>) -> bool {
    are_picks(0, n, k, combos)
}

/// The ways to pick positions are what is used of them.
pub proof fn lemma_combinations(from: nat, n: nat, k: nat)
    requires
        from <= n <= usize::MAX,
    ensures
        are_picks(from, n, k, spec_combinations(from, n, k)),
    decreases n - from,
{
    let combos = spec_combinations(from, n, k);
    if k == 0 {
        assert(combos[0] =~= Seq::new(0nat, |i: int| (from + i) as usize));
    } else if from >= n {
    } else {
        let inner = spec_combinations(from + 1, n, (k - 1) as nat);
        let with_first = |rest: Seq<usize>| seq![from as usize] + rest;
        let left = inner.map_values(with_first);
        let right = spec_combinations(from + 1, n, k);
        lemma_combinations(from + 1, n, (k - 1) as nat);
        lemma_combinations(from + 1, n, k);
        assert(combos == left + right);
        assert forall|c: int| 0 <= c < combos.len() implies (#[trigger] combos[c]).len() == k && (
        forall|i: int| 0 <= i < combos[c].len() ==> from <= (#[trigger] combos[c][i]) < n) && (
        forall|i: int, j: int|
            0 <= i < j < combos[c].len() ==> (#[trigger] combos[c][i]) < (
            #[trigger] combos[c][j])) by {
            if c < left.len() {
                let rest = inner[c];
                assert(combos[c] == seq![from as usize] + rest);
                assert forall|i: int| 0 <= i < combos[c].len() implies from <= (
                #[trigger] combos[c][i]) < n by {
                    if i > 0 {
                        assert(combos[c][i] == rest[i - 1]);
                    }
                }
                assert forall|i: int, j: int| 0 <= i < j < combos[c].len() implies (
                #[trigger] combos[c][i]) < (#[trigger] combos[c][j]) by {
                    assert(combos[c][j] == rest[j - 1]);
                    if i > 0 {
                        assert(combos[c][i] == rest[i - 1]);
                    }
                }
            } else {
                assert(combos[c] == right[c - left.len()]);
            }
        }
        if k + from <= n {
            assert(inner.len() > 0);
            assert(combos[0] == seq![from as usize] + inner[0]);
            assert(combos[0] =~= Seq::new(k, |i: int| (from + i) as usize));
        }
    }
}

/// Calls `Itertools::combinations` on the positions `0..n`.  It yields the
/// `k`-length combinations of the items, each as a vector that follows the
/// order of the items; a combination with an earlier item comes before one
/// with a later item in its place, which is the order of
/// [`spec_combinations`].
#[verifier::external_body]
pub(crate) fn combinations(n: usize, k: usize) -> (combos: Vec<Vec<usize>>)
    ensures
        combos@.map_values(|combo: Vec<usize>| combo@) == spec_combinations(0, n as nat, k as nat),
{
    (0..n).combinations(k).collect()
}

/// The pairs of a position below `n` and a position below `m`: for each
/// first position in turn, every second position in turn.
pub open spec fn spec_product(n: nat, m: nat) -> Seq<(usize, usize)> {
    Seq::new(n * m, |t: int| ((t / m as int) as usize, (t % m as int) as usize))
}

/// Calls `Itertools::cartesian_product` on the positions `0..n` and `0..m`.
/// It pairs every item of the first with every item of the second, and goes
/// through the second once for each item of the first.
#[verifier::external_body]
pub(crate) fn product(n: usize, m: usize) -> (pairs: Vec<(usize, usize)>)
    ensures
        pairs@ == spec_product(n as nat, m as nat),
{
    (0..n).cartesian_product(0..m).collect()
}

/// Every pair of a product holds a position below `n` and one below `m`.
pub proof fn lemma_product_in_range(n: nat, m: nat, t: int)
    requires
        0 <= t < spec_product(n, m).len(),
        n <= usize::MAX,
        m <= usize::MAX,
    ensures
        spec_product(n, m)[t].0 < n,
        spec_product(n, m)[t].1 < m,
{
    assert(m > 0) by (nonlinear_arith)
        requires
            0 <= t < n * m,
    ;
    assert(0 <= t / m as int && t / m as int <= n - 1) by (nonlinear_arith)
        requires
            0 <= t < n * m,
            m > 0,
    ;
    assert(0 <= t % m as int && t % m as int <= m - 1) by (nonlinear_arith)
        requires
            0 <= t,
            m > 0,
    ;
}

} // verus!
