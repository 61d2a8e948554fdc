//! Ranked views of the scores of one game.
//!
//! A ranking lists every player of the game once, by falling score. Where two
//! players have the same score, nothing is promised about which of them comes
//! first.

use crate::scores::PlayerScores;
use crate::table::{distinct, lemma_lists_len, lists, names};
use vstd::multiset::group_multiset_axioms;
use vstd::prelude::*;
use vstd::seq_lib::{group_to_multiset_ensures, lemma_multiset_commutative};

verus! {

/// No row has a higher score than a row before it.
pub open spec fn descending(rows: Seq<(Seq<char>, u64)>) -> bool {
    forall|i: int, j: int| 0 <= i <= j < rows.len() ==> rows[i].1 >= rows[j].1
}

/// `rows` is a ranking of `scores`: it lists every player of `scores` once
/// with the player's score, by falling score.
pub open spec fn is_ranking(rows: Seq<(Seq<char>, u64)>, scores: Map<Seq<char>, u64>) -> bool {
    &&& lists(rows, scores)
    &&& descending(rows)
}

/// `rows` is the first `limit` rows of a ranking of `scores`, or the whole
/// ranking where it has no more than `limit` rows.
pub open spec fn is_top(
    rows: Seq<(Seq<char>, u64)>,
    scores: Map<Seq<char>, u64>,
    limit: nat,
) -> bool {
    exists|full: Seq<(Seq<char>, u64)>| #[trigger]
        is_ranking(full, scores) && rows == full.take(
            if limit < full.len() {
                limit as int
            } else {
                full.len() as int
            },
        )
}

/// A ranking has one row for each player.
pub proof fn lemma_ranking_len(rows: Seq<(Seq<char>, u64)>, scores: Map<Seq<char>, u64>)
    requires
        is_ranking(rows, scores),
    ensures
        scores.dom().finite(),
        rows.len() == scores.dom().len(),
{
    lemma_lists_len(rows, scores);
}

/// The rows of a top view are the best of the game: there are `limit` of
/// them, or as many as the game has players where these are fewer; each is a
/// player of the game with the player's score, no player twice; they come by
/// falling score; and no player left out has a higher score than a player
/// listed.
pub proof fn lemma_top_is_best(
    rows: Seq<(Seq<char>, u64)>,
    scores: Map<Seq<char>, u64>,
    limit: nat,
)
    requires
        is_top(rows, scores, limit),
    ensures
        scores.dom().finite(),
        rows.len() == if limit < scores.dom().len() {
            limit
        } else {
            scores.dom().len()
        },
        descending(rows),
        distinct(rows),
        forall|i: int| 0 <= i < rows.len() ==> scores.contains_pair((#[trigger] rows[i]).0, rows[i].1),
        forall|name: Seq<char>, i: int|
            #![trigger scores.contains_key(name), rows[i]]
            scores.contains_key(name) && !names(rows, name) && 0 <= i < rows.len() ==> scores[name]
                <= rows[i].1,
{
    let full = choose|full: Seq<(Seq<char>, u64)>| #[trigger]
        is_ranking(full, scores) && rows == full.take(
            if limit < full.len() {
                limit as int
            } else {
                full.len() as int
            },
        );
    lemma_lists_len(full, scores);
    assert forall|i: int| 0 <= i < rows.len() implies scores.contains_pair(
        (#[trigger] rows[i]).0,
        rows[i].1,
    ) by {
        assert(scores.contains_pair(full[i].0, full[i].1));
    }
    assert forall|i: int, j: int| 0 <= i < j < rows.len() implies rows[i].0 != rows[j].0 by {
        assert(full[i].0 != full[j].0);
    }
    assert forall|name: Seq<char>, i: int|
        #![trigger scores.contains_key(name), rows[i]]
        scores.contains_key(name) && !names(rows, name) && 0 <= i < rows.len() implies scores[name]
            <= rows[i].1 by {
        let j = choose|j: int| 0 <= j < full.len() && (#[trigger] full[j]).0 == name;
        assert(scores.contains_pair(full[j].0, full[j].1));
        if j < rows.len() {
            assert(rows[j].0 == name);
        }
        assert(full[i].1 >= full[j].1);
    }
}

/// Every position of `order` is a row number below `n`.
spec fn within(order: Seq<usize>, n: nat) -> bool {
    forall|a: int| 0 <= a < order.len() ==> (#[trigger] order[a]) < n
}

/// The rows that `order` points at come by falling score.
spec fn falling(order: Seq<usize>, rows: Seq<(Seq<char>, u64)>) -> bool {
    forall|a: int, b: int|
        #![trigger order[a], order[b]]
        0 <= a <= b < order.len() ==> rows[order[a] as int].1 >= rows[order[b] as int].1
}

/// The rows of `rows` in the order that `order` gives.
spec fn arranged(rows: Seq<(Seq<char>, u64)>, order: Seq<usize>) -> Seq<(Seq<char>, u64)> {
    Seq::new(order.len(), |t: int| rows[order[t] as int])
}

/// The row numbers `0, 1, .., n - 1`.
spec fn row_numbers(n: nat) -> Seq<usize> {
    Seq::new(n, |i: int| i as usize)
}

/// Rows that list a map still list it when they are arranged in another
/// order.
proof fn lemma_arranged_lists(
    rows: Seq<(Seq<char>, u64)>,
    order: Seq<usize>,
    scores: Map<Seq<char>, u64>,
)
    requires
        lists(rows, scores),
        rows.len() <= usize::MAX,
        order.to_multiset() == row_numbers(rows.len()).to_multiset(),
    ensures
        order.len() == rows.len(),
        within(order, rows.len()),
        lists(arranged(rows, order), scores),
{
    broadcast use group_to_multiset_ensures;

    let numbers = row_numbers(rows.len());
    let placed = arranged(rows, order);
    assert(order.len() == numbers.len()) by {
        assert(order.to_multiset().len() == order.len());
        assert(numbers.to_multiset().len() == numbers.len());
    }
    assert forall|a: int| 0 <= a < order.len() implies (#[trigger] order[a]) < rows.len() by {
        assert(order.contains(order[a]));
        assert(order.to_multiset().count(order[a]) > 0);
        assert(numbers.to_multiset().count(order[a]) > 0);
        assert(numbers.contains(order[a]));
    }
    assert(numbers.no_duplicates());
    numbers.lemma_multiset_has_no_duplicates();
    order.lemma_multiset_has_no_duplicates_conv();
    assert forall|a: int, b: int| 0 <= a < b < placed.len() implies placed[a].0 != placed[b].0 by {
        assert(order[a] != order[b]);
        if order[a] < order[b] {
            assert(rows[order[a] as int].0 != rows[order[b] as int].0);
        } else {
            assert(rows[order[b] as int].0 != rows[order[a] as int].0);
        }
    }
    assert forall|t: int| 0 <= t < placed.len() implies scores.contains_pair(
        (#[trigger] placed[t]).0,
        placed[t].1,
    ) by {
        assert(scores.contains_pair(rows[order[t] as int].0, rows[order[t] as int].1));
    }
    assert forall|name: Seq<char>| #[trigger] scores.contains_key(name) implies names(
        placed,
        name,
    ) by {
        let i = choose|i: int| 0 <= i < rows.len() && (#[trigger] rows[i]).0 == name;
        assert(numbers[i] == i as usize);
        assert(numbers.contains(i as usize));
        assert(numbers.to_multiset().count(i as usize) > 0);
        assert(order.to_multiset().count(i as usize) > 0);
        assert(order.contains(i as usize));
        let t = choose|t: int| 0 <= t < order.len() && order[t] == i as usize;
        assert(placed[t].0 == name);
    }
}

/// Nothing taken from either side is nothing merged.
proof fn lemma_merge_start(left: Seq<usize>, right: Seq<usize>)
    ensures
        Seq::<usize>::empty().to_multiset() == left.take(0).to_multiset().add(
            right.take(0).to_multiset(),
        ),
{
    broadcast use {group_to_multiset_ensures, group_multiset_axioms};

    assert(left.take(0) =~= Seq::<usize>::empty());
    assert(right.take(0) =~= Seq::<usize>::empty());
    let none = Seq::<usize>::empty().to_multiset();
    assert(none.len() == 0);
    assert(none =~= none.add(none));
}

/// One more element on either side of a merge is one more element in the
/// merged run.
proof fn lemma_merge_step(merged: Seq<usize>, left: Seq<usize>, right: Seq<usize>, next: usize)
    requires
        merged.to_multiset() == left.to_multiset().add(right.to_multiset()),
    ensures
        merged.push(next).to_multiset() == left.push(next).to_multiset().add(right.to_multiset()),
        merged.push(next).to_multiset() == left.to_multiset().add(right.push(next).to_multiset()),
{
    broadcast use {group_to_multiset_ensures, group_multiset_axioms};

    let l = left.to_multiset();
    let r = right.to_multiset();
    assert(merged.push(next).to_multiset() =~= l.add(r).insert(next));
    assert(left.push(next).to_multiset() =~= l.insert(next));
    assert(right.push(next).to_multiset() =~= r.insert(next));
    assert(l.insert(next).add(r) =~= l.add(r).insert(next));
    assert(l.add(r.insert(next)) =~= l.add(r).insert(next));
}

/// Merges two runs of row numbers, each by falling score, into one.
fn merge(left: &Vec<usize>, right: &Vec<usize>, scores: &PlayerScores) -> (merged: Vec<usize>)
    requires
        within(left@, scores.rows().len()),
        within(right@, scores.rows().len()),
        falling(left@, scores.rows()),
        falling(right@, scores.rows()),
    ensures
        merged@.to_multiset() == left@.to_multiset().add(right@.to_multiset()),
        within(merged@, scores.rows().len()),
        falling(merged@, scores.rows()),
{
    let ghost rows = scores.rows();
    let mut merged: Vec<usize> = Vec::new();
    let mut i: usize = 0;
    let mut j: usize = 0;
    proof {
        lemma_merge_start(left@, right@);
    }
    while i < left.len() || j < right.len()
        invariant
            i <= left.len(),
            j <= right.len(),
            rows == scores.rows(),
            within(left@, rows.len()),
            within(right@, rows.len()),
            falling(left@, rows),
            falling(right@, rows),
            within(merged@, rows.len()),
            falling(merged@, rows),
            merged@.to_multiset() == left@.take(i as int).to_multiset().add(
                right@.take(j as int).to_multiset(),
            ),
            forall|a: int, b: int|
                #![trigger merged@[a], left@[b]]
                0 <= a < merged.len() && i <= b < left.len() ==> rows[merged@[a] as int].1
                    >= rows[left@[b] as int].1,
            forall|a: int, b: int|
                #![trigger merged@[a], right@[b]]
                0 <= a < merged.len() && j <= b < right.len() ==> rows[merged@[a] as int].1
                    >= rows[right@[b] as int].1,
        decreases left.len() - i + right.len() - j,
    {
        let from_left = if i >= left.len() {
            false
        } else if j >= right.len() {
            true
        } else {
            scores.score_at(left[i]) >= scores.score_at(right[j])
        };
        if from_left {
            let next = left[i];
            proof {
                lemma_merge_step(merged@, left@.take(i as int), right@.take(j as int), next);
                assert(left@.take(i + 1) =~= left@.take(i as int).push(next));
            }
            merged.push(next);
            i += 1;
        } else {
            let next = right[j];
            proof {
                lemma_merge_step(merged@, left@.take(i as int), right@.take(j as int), next);
                assert(right@.take(j + 1) =~= right@.take(j as int).push(next));
            }
            merged.push(next);
            j += 1;
        }
    }
    assert(left@.take(i as int) =~= left@);
    assert(right@.take(j as int) =~= right@);
    merged
}

/// Sorts row numbers by falling score.
fn sort(order: Vec<usize>, scores: &PlayerScores) -> (sorted: Vec<usize>)
    requires
        within(order@, scores.rows().len()),
    ensures
        sorted@.to_multiset() == order@.to_multiset(),
        within(sorted@, scores.rows().len()),
        falling(sorted@, scores.rows()),
    decreases order.len(),
{
    if order.len() <= 1 {
        return order;
    }
    let mut left = order;
    let half = left.len() / 2;
    let right = left.split_off(half);
    proof {
        assert(order@ =~= left@ + right@);
        lemma_multiset_commutative(left@, right@);
    }
    let left = sort(left, scores);
    let right = sort(right, scores);
    merge(&left, &right, scores)
}

/// The row numbers of `scores` in rising order.
fn numbered(scores: &PlayerScores) -> (order: Vec<usize>)
    ensures
        order@ == row_numbers(scores.rows().len()),
{
    let n = scores.count();
    let mut order: Vec<usize> = Vec::new();
    let mut i: usize = 0;
    while i < n
        invariant
            i <= n,
            n == scores.rows().len(),
            order@ == row_numbers(i as nat),
        decreases n - i,
    {
        order.push(i);
        assert(order@ =~= row_numbers((i + 1) as nat));
        i += 1;
    }
    order
}

/// Ranks the scores of one game.
///
/// With a `limit`, the result holds the first `limit` rows of a ranking (all
/// of them where there are no more than `limit`), and the flag says whether
/// the game has more players than `limit`. Without one, the result is a whole
/// ranking and the flag is `false`.
pub fn rank(scores: &PlayerScores, limit: Option<usize>) -> (ranked: (Vec<(String, u64)>, bool))
    requires
        scores.wf(),
    ensures
        scores@.dom().finite(),
        match limit {
            Some(n) => is_top(ranked.0.deep_view(), scores@, n as nat) && ranked.1
                == (scores@.dom().len() > n),
            None => is_ranking(ranked.0.deep_view(), scores@) && !ranked.1,
        },
{
    let ghost rows = scores.rows();
    let n = scores.count();
    let order = sort(numbered(scores), scores);
    let ghost full = arranged(rows, order@);
    proof {
        scores.lemma_rows();
        lemma_lists_len(rows, scores@);
        lemma_arranged_lists(rows, order@, scores@);
        assert(descending(full));
    }
    let keep = match limit {
        Some(wanted) => if wanted < n {
            wanted
        } else {
            n
        },
        None => n,
    };
    let more = match limit {
        Some(wanted) => n > wanted,
        None => false,
    };
    let mut top: Vec<(String, u64)> = Vec::new();
    let mut t: usize = 0;
    while t < keep
        invariant
            t <= keep <= n,
            n == order.len(),
            rows == scores.rows(),
            within(order@, rows.len()),
            full == arranged(rows, order@),
            top.len() == t,
            top.deep_view() == full.take(t as int),
        decreases keep - t,
    {
        let ghost done = top@;
        let at = order[t];
        let name = scores.name_at(at).clone();
        top.push((name, scores.score_at(at)));
        assert(top.deep_view() =~= full.take(t + 1)) by {
            assert(top@[t as int].deep_view() == full[t as int]);
            assert forall|k: int| 0 <= k < t implies top.deep_view()[k] == full[k] by {
                assert(top@[k] == done[k]);
                assert(done[k].deep_view() == full.take(t as int)[k]);
            }
        }
        t += 1;
    }
    proof {
        assert(is_ranking(full, scores@));
        assert(full.take(n as int) =~= full);
    }
    (top, more)
}

} // verus!
