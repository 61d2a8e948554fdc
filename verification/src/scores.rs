//! The scores of one game: each player with one score.

use crate::table::{as_map, distinct, lemma_distinct_lists, lemma_lists_len, lemma_lists_one, lemma_lists_push, lemma_lists_update, lists};
use crate::text::str_eq;
use vstd::prelude::*;
use vstd::set_lib::lemma_subset_equality;

verus! {

/// The scores recorded for one game.
///
/// Its view is the map from each player to that player's score. A game may
/// have no player at all.
pub struct PlayerScores {
    rows: Vec<(String, u64)>,
}

impl View for PlayerScores {
    type V = Map<Seq<char>, u64>;

    closed spec fn view(&self) -> Map<Seq<char>, u64> {
        as_map(self.rows.deep_view())
    }
}

impl PlayerScores {
    /// No player is recorded twice.
    pub closed spec fn wf(&self) -> bool {
        distinct(self.rows.deep_view())
    }

    /// The players in the order in which they were first recorded, each with
    /// the score.
    pub(crate) closed spec fn rows(&self) -> Seq<(Seq<char>, u64)> {
        self.rows.deep_view()
    }

    /// The rows of a well-formed value list its view.
    pub(crate) proof fn lemma_rows(&self)
        requires
            self.wf(),
        ensures
            lists(self.rows(), self@),
    {
        lemma_distinct_lists(self.rows.deep_view());
    }

    /// The number of rows.
    pub(crate) fn count(&self) -> (n: usize)
        ensures
            n == self.rows().len(),
    {
        self.rows.len()
    }

    /// The player of row `at`.
    pub(crate) fn name_at(&self, at: usize) -> (name: &String)
        requires
            at < self.rows().len(),
        ensures
            name@ == self.rows()[at as int].0,
    {
        &self.rows[at].0
    }

    /// The score of row `at`.
    pub(crate) fn score_at(&self, at: usize) -> (score: u64)
        requires
            at < self.rows().len(),
        ensures
            score == self.rows()[at as int].1,
    {
        self.rows[at].1
    }

    /// A well-formed value has finitely many players.
    pub proof fn lemma_finite(&self)
        requires
            self.wf(),
        ensures
            self@.dom().finite(),
    {
        lemma_distinct_lists(self.rows.deep_view());
        lemma_lists_len(self.rows.deep_view(), self@);
    }

    /// Scores of a game in which nobody has played yet.
    pub fn new() -> (scores: PlayerScores)
        ensures
            scores.wf(),
            scores@ == Map::<Seq<char>, u64>::empty(),
    {
        let scores = PlayerScores { rows: Vec::new() };
        assert(scores.rows.deep_view() =~= Seq::empty());
        scores
    }

    /// The number of players.
    pub fn len(&self) -> (n: usize)
        requires
            self.wf(),
        ensures
            self@.dom().finite(),
            n == self@.dom().len(),
    {
        proof {
            lemma_distinct_lists(self.rows.deep_view());
            lemma_lists_len(self.rows.deep_view(), self@);
        }
        self.rows.len()
    }

    /// The row that holds `player`, if there is one.
    fn position(&self, player: &str) -> (at: Option<usize>)
        requires
            self.wf(),
        ensures
            match at {
                Some(i) => i < self.rows.len() && self.rows.deep_view()[i as int].0 == player@,
                None => !self@.contains_key(player@),
            },
    {
        let ghost rows = self.rows.deep_view();
        proof {
            lemma_distinct_lists(rows);
        }
        let mut i: usize = 0;
        while i < self.rows.len()
            invariant
                i <= self.rows.len(),
                rows == self.rows.deep_view(),
                forall|k: int| 0 <= k < i ==> (#[trigger] rows[k]).0 != player@,
            decreases self.rows.len() - i,
        {
            if str_eq(self.rows[i].0.as_str(), player) {
                return Some(i);
            }
            i += 1;
        }
        None
    }

    /// The score of `player`, or `None` for a player that is not recorded.
    pub fn get(&self, player: &str) -> (score: Option<u64>)
        requires
            self.wf(),
        ensures
            score == if self@.contains_key(player@) {
                Some(self@[player@])
            } else {
                None
            },
    {
        proof {
            lemma_distinct_lists(self.rows.deep_view());
        }
        match self.position(player) {
            Some(i) => {
                assert(self@.contains_pair(self.rows.deep_view()[i as int].0, self.rows.deep_view()[i as int].1));
                Some(self.rows[i].1)
            },
            None => None,
        }
    }

    /// Records `score` for `player`, in place of any score recorded before.
    pub fn set(&mut self, player: &str, score: u64)
        requires
            old(self).wf(),
        ensures
            final(self).wf(),
            final(self)@ == old(self)@.insert(player@, score),
    {
        let ghost before = self.rows.deep_view();
        proof {
            lemma_distinct_lists(before);
        }
        match self.position(player) {
            Some(i) => {
                self.rows[i].1 = score;
                proof {
                    let after = self.rows.deep_view();
                    assert(after =~= before.update(i as int, (before[i as int].0, score)));
                    lemma_lists_update(before, old(self)@, i as int, score);
                    lemma_distinct_lists(after);
                    lemma_lists_one(after, self@, old(self)@.insert(player@, score));
                }
            },
            None => {
                self.rows.push((player.to_owned(), score));
                proof {
                    let after = self.rows.deep_view();
                    assert(after =~= before.push((player@, score)));
                    lemma_lists_push(before, old(self)@, player@, score);
                    lemma_distinct_lists(after);
                    lemma_lists_one(after, self@, old(self)@.insert(player@, score));
                }
            },
        }
    }

    /// Every player with the recorded score, each player once.
    pub fn entries(&self) -> (rows: Vec<(String, u64)>)
        requires
            self.wf(),
        ensures
            lists(rows.deep_view(), self@),
    {
        proof {
            lemma_distinct_lists(self.rows.deep_view());
        }
        self.copied_rows()
    }

    /// A copy: the same players with the same scores.
    pub fn duplicate(&self) -> (copy: PlayerScores)
        requires
            self.wf(),
        ensures
            copy.wf(),
            copy@ == self@,
    {
        PlayerScores { rows: self.copied_rows() }
    }

    /// The rows, copied one by one.
    fn copied_rows(&self) -> (rows: Vec<(String, u64)>)
        ensures
            rows.deep_view() == self.rows.deep_view(),
    {
        let ghost mine = self.rows.deep_view();
        let mut rows: Vec<(String, u64)> = Vec::new();
        let mut i: usize = 0;
        while i < self.rows.len()
            invariant
                i <= self.rows.len(),
                mine == self.rows.deep_view(),
                rows.len() == i,
                rows.deep_view() == mine.take(i as int),
            decreases self.rows.len() - i,
        {
            let ghost copied = rows@;
            let name = self.rows[i].0.clone();
            rows.push((name, self.rows[i].1));
            assert(rows.deep_view() =~= mine.take(i + 1)) by {
                assert(rows@[i as int].deep_view() == mine[i as int]);
                assert forall|k: int| 0 <= k < i implies rows.deep_view()[k] == mine[k] by {
                    assert(rows@[k] == copied[k]);
                    assert(copied[k].deep_view() == mine.take(i as int)[k]);
                }
            }
            i += 1;
        }
        assert(rows.deep_view() =~= mine);
        rows
    }

    /// Whether `other` records the same players with the same scores.
    pub fn same_as(&self, other: &PlayerScores) -> (same: bool)
        requires
            self.wf(),
            other.wf(),
        ensures
            same == (self@ == other@),
    {
        let ghost rows = self.rows.deep_view();
        proof {
            lemma_distinct_lists(rows);
            lemma_lists_len(rows, self@);
            other.lemma_finite();
        }
        if self.len() != other.len() {
            return false;
        }
        let mut i: usize = 0;
        while i < self.rows.len()
            invariant
                i <= self.rows.len(),
                other.wf(),
                rows == self.rows.deep_view(),
                lists(rows, self@),
                forall|k: int| 0 <= k < i ==> other@.contains_pair((#[trigger] rows[k]).0, rows[k].1),
            decreases self.rows.len() - i,
        {
            assert(self@.contains_pair(rows[i as int].0, rows[i as int].1));
            match other.get(self.rows[i].0.as_str()) {
                Some(score) => {
                    if score != self.rows[i].1 {
                        return false;
                    }
                },
                None => {
                    return false;
                },
            }
            i += 1;
        }
        proof {
            assert forall|name: Seq<char>| self@.contains_key(name) implies other@.contains_key(name)
                && other@[name] == self@[name] by {
                let k = choose|k: int| 0 <= k < rows.len() && (#[trigger] rows[k]).0 == name;
                assert(self@.contains_pair(rows[k].0, rows[k].1));
                assert(other@.contains_pair(rows[k].0, rows[k].1));
            }
            assert(self@.dom().subset_of(other@.dom()));
            lemma_subset_equality(self@.dom(), other@.dom());
            assert(self@ =~= other@);
        }
        true
    }
}

} // verus!
