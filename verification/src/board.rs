//! The leaderboard: every game with the scores of its players.

use crate::scores::PlayerScores;
use crate::table::{as_map, distinct, lemma_distinct_lists, lemma_lists_len, lemma_lists_one, lemma_lists_push, lemma_lists_update, lists, names};
use crate::text::str_eq;
use vstd::prelude::*;
use vstd::set_lib::lemma_subset_equality;

verus! {

/// How a submitted value combines with the score recorded before.
#[derive(Clone, Copy, Debug, PartialEq, Eq, Structural)]
pub enum Mode {
    /// The submitted value becomes the score.
    Overwrite,
    /// The submitted value is added to the score; a player without a score
    /// starts from zero.
    Increment,
}

/// The scores of `game` in `board`; none for a game that is not recorded.
pub open spec fn scores_of(
    board: Map<Seq<char>, Map<Seq<char>, u64>>,
    game: Seq<char>,
) -> Map<Seq<char>, u64> {
    if board.contains_key(game) {
        board[game]
    } else {
        Map::empty()
    }
}

/// The score of `player` in `game`, zero where none is recorded.
pub open spec fn score_in(
    board: Map<Seq<char>, Map<Seq<char>, u64>>,
    game: Seq<char>,
    player: Seq<char>,
) -> int {
    if scores_of(board, game).contains_key(player) {
        scores_of(board, game)[player] as int
    } else {
        0
    }
}

/// The score that a submission of `value` leaves, given the score before.
pub open spec fn resulting_score(previous: int, value: u64, mode: Mode) -> int {
    match mode {
        Mode::Overwrite => value as int,
        Mode::Increment => previous + value,
    }
}

/// `board` with the score of `player` in `game` replaced by `score`, and
/// nothing else changed.
pub open spec fn with_score(
    board: Map<Seq<char>, Map<Seq<char>, u64>>,
    game: Seq<char>,
    player: Seq<char>,
    score: u64,
) -> Map<Seq<char>, Map<Seq<char>, u64>> {
    board.insert(game, scores_of(board, game).insert(player, score))
}

/// `board` after the submission of `value` for `player` in `game`.
pub open spec fn submitted(
    board: Map<Seq<char>, Map<Seq<char>, u64>>,
    game: Seq<char>,
    player: Seq<char>,
    value: u64,
    mode: Mode,
) -> Map<Seq<char>, Map<Seq<char>, u64>> {
    with_score(
        board,
        game,
        player,
        resulting_score(score_in(board, game, player), value, mode) as u64,
    )
}

/// The score that the submission leaves can be held in 64 bits.
pub open spec fn representable(
    board: Map<Seq<char>, Map<Seq<char>, u64>>,
    game: Seq<char>,
    player: Seq<char>,
    value: u64,
    mode: Mode,
) -> bool {
    resulting_score(score_in(board, game, player), value, mode) <= u64::MAX
}

/// The leaderboard that comes of recording the entries one after the other:
/// each entry names a game and gives rows of players with their scores. A
/// later entry replaces an earlier one of the same game, and within an entry a
/// later row replaces an earlier one of the same player.
pub open spec fn recorded(
    entries: Seq<(Seq<char>, Seq<(Seq<char>, u64)>)>,
) -> Map<Seq<char>, Map<Seq<char>, u64>> {
    as_map(entries.map_values(|entry: (Seq<char>, Seq<(Seq<char>, u64)>)| (entry.0, as_map(entry.1))))
}

/// `entries` is a snapshot of `board`: it names every game of `board` once,
/// and with each game it lists the scores of that game, each player once.
pub open spec fn is_snapshot(
    entries: Seq<(Seq<char>, Seq<(Seq<char>, u64)>)>,
    board: Map<Seq<char>, Map<Seq<char>, u64>>,
) -> bool {
    &&& distinct(entries)
    &&& forall|i: int|
        0 <= i < entries.len() ==> board.contains_key((#[trigger] entries[i]).0) && lists(
            entries[i].1,
            board[entries[i].0],
        )
    &&& forall|game: Seq<char>| #[trigger] board.contains_key(game) ==> names(entries, game)
}

/// Recording a snapshot of a leaderboard gives that leaderboard again,
/// whatever the order of the games and of the players in the snapshot.
pub proof fn lemma_snapshot_restores(
    entries: Seq<(Seq<char>, Seq<(Seq<char>, u64)>)>,
    board: Map<Seq<char>, Map<Seq<char>, u64>>,
)
    requires
        is_snapshot(entries, board),
    ensures
        recorded(entries) == board,
{
    let rows = entries.map_values(
        |entry: (Seq<char>, Seq<(Seq<char>, u64)>)| (entry.0, as_map(entry.1)),
    );
    assert forall|i: int, j: int| 0 <= i < j < rows.len() implies rows[i].0 != rows[j].0 by {
        assert(entries[i].0 != entries[j].0);
    }
    lemma_distinct_lists(rows);
    assert forall|i: int| 0 <= i < rows.len() implies board.contains_pair(
        (#[trigger] rows[i]).0,
        rows[i].1,
    ) by {
        assert(board.contains_key(entries[i].0));
        lemma_distinct_lists(entries[i].1);
        lemma_lists_one(entries[i].1, board[entries[i].0], as_map(entries[i].1));
    }
    assert forall|game: Seq<char>| #[trigger] board.contains_key(game) implies names(rows, game) by {
        let i = choose|i: int| 0 <= i < entries.len() && (#[trigger] entries[i]).0 == game;
        assert(rows[i].0 == game);
    }
    lemma_lists_one(rows, recorded(entries), board);
}

/// The whole state of the leaderboard: each game with its scores.
///
/// Its view is the map from each game to the map from each of its players to
/// that player's score.
pub struct Leaderboard {
    games: Vec<(String, PlayerScores)>,
}

impl View for Leaderboard {
    type V = Map<Seq<char>, Map<Seq<char>, u64>>;

    closed spec fn view(&self) -> Map<Seq<char>, Map<Seq<char>, u64>> {
        as_map(self.rows())
    }
}

impl Leaderboard {
    /// The games in the order in which they were first recorded, each with the
    /// map of its scores.
    closed spec fn rows(&self) -> Seq<(Seq<char>, Map<Seq<char>, u64>)> {
        Seq::new(self.games.len() as nat, |i: int| (self.games[i].0@, self.games[i].1@))
    }

    /// No game is recorded twice, and no player twice within a game.
    pub closed spec fn wf(&self) -> bool {
        &&& distinct(self.rows())
        &&& forall|i: int| 0 <= i < self.games.len() ==> (#[trigger] self.games[i]).1.wf()
    }

    /// A well-formed leaderboard has finitely many games, each with finitely
    /// many players.
    pub proof fn lemma_finite(&self)
        requires
            self.wf(),
        ensures
            self@.dom().finite(),
            forall|game: Seq<char>| #[trigger] self@.contains_key(game) ==> self@[game].dom().finite(),
    {
        lemma_distinct_lists(self.rows());
        lemma_lists_len(self.rows(), self@);
        assert forall|game: Seq<char>| #[trigger] self@.contains_key(game) implies self@[game].dom().finite() by {
            let i = choose|i: int| 0 <= i < self.rows().len() && (#[trigger] self.rows()[i]).0 == game;
            assert(self@.contains_pair(self.rows()[i].0, self.rows()[i].1));
            self.games[i].1.lemma_finite();
        }
    }

    /// A leaderboard without any game.
    pub fn new() -> (board: Leaderboard)
        ensures
            board.wf(),
            board@ == Map::<Seq<char>, Map<Seq<char>, u64>>::empty(),
    {
        let board = Leaderboard { games: Vec::new() };
        assert(board.rows() =~= Seq::empty());
        board
    }

    /// The number of games.
    pub fn len(&self) -> (n: usize)
        requires
            self.wf(),
        ensures
            self@.dom().finite(),
            n == self@.dom().len(),
    {
        proof {
            lemma_distinct_lists(self.rows());
            lemma_lists_len(self.rows(), self@);
        }
        self.games.len()
    }

    /// The row that holds `game`, if there is one.
    fn position(&self, game: &str) -> (at: Option<usize>)
        requires
            self.wf(),
        ensures
            match at {
                Some(i) => i < self.games.len() && self.games[i as int].0@ == game@
                    && self@.contains_key(game@) && self@[game@] == self.games[i as int].1@,
                None => !self@.contains_key(game@),
            },
    {
        let ghost rows = self.rows();
        proof {
            lemma_distinct_lists(rows);
        }
        let mut i: usize = 0;
        while i < self.games.len()
            invariant
                i <= self.games.len(),
                rows == self.rows(),
                lists(rows, self@),
                forall|k: int| 0 <= k < i ==> (#[trigger] rows[k]).0 != game@,
            decreases self.games.len() - i,
        {
            if str_eq(self.games[i].0.as_str(), game) {
                assert(self@.contains_pair(rows[i as int].0, rows[i as int].1));
                return Some(i);
            }
            i += 1;
        }
        None
    }

    /// The scores of `game`, or `None` for a game that is not recorded.
    pub fn game(&self, game: &str) -> (scores: Option<&PlayerScores>)
        requires
            self.wf(),
        ensures
            match scores {
                Some(found) => found.wf() && self@.contains_key(game@) && found@ == self@[game@],
                None => !self@.contains_key(game@),
            },
    {
        match self.position(game) {
            Some(i) => Some(&self.games[i].1),
            None => None,
        }
    }

    /// The score of `player` in `game`, or `None` where none is recorded.
    pub fn score(&self, game: &str, player: &str) -> (score: Option<u64>)
        requires
            self.wf(),
        ensures
            score == if scores_of(self@, game@).contains_key(player@) {
                Some(scores_of(self@, game@)[player@])
            } else {
                None
            },
    {
        match self.game(game) {
            Some(scores) => scores.get(player),
            None => None,
        }
    }

    /// The names of all games, each once.
    pub fn game_names(&self) -> (names: Vec<String>)
        requires
            self.wf(),
        ensures
            names.deep_view().no_duplicates(),
            names.deep_view().to_set() == self@.dom(),
    {
        let ghost rows = self.rows();
        proof {
            lemma_distinct_lists(rows);
        }
        let mut names: Vec<String> = Vec::new();
        let mut i: usize = 0;
        while i < self.games.len()
            invariant
                i <= self.games.len(),
                rows == self.rows(),
                names.len() == i,
                forall|k: int| 0 <= k < i ==> (#[trigger] names@[k])@ == rows[k].0,
            decreases self.games.len() - i,
        {
            let name = self.games[i].0.clone();
            names.push(name);
            i += 1;
        }
        proof {
            let listed = names.deep_view();
            assert forall|a: int, b: int| 0 <= a < listed.len() && 0 <= b < listed.len() && a != b implies listed[a] != listed[b] by {
                assert(listed[a] == rows[a].0 && listed[b] == rows[b].0);
                if a < b {
                    assert(rows[a].0 != rows[b].0);
                } else {
                    assert(rows[b].0 != rows[a].0);
                }
            }
            assert forall|name: Seq<char>| listed.to_set().contains(name) <==> self@.dom().contains(name) by {
                if listed.to_set().contains(name) {
                    let k = choose|k: int| 0 <= k < listed.len() && listed[k] == name;
                    assert(self@.contains_pair(rows[k].0, rows[k].1));
                }
                if self@.dom().contains(name) {
                    assert(self@.contains_key(name));
                    let k = choose|k: int| 0 <= k < rows.len() && (#[trigger] rows[k]).0 == name;
                    assert(listed[k] == name);
                }
            }
            assert(listed.to_set() =~= self@.dom());
        }
        names
    }

    /// Records `scores` as the scores of `game`, in place of any scores
    /// recorded for it before.
    pub fn insert_game(&mut self, game: &str, scores: PlayerScores)
        requires
            old(self).wf(),
            scores.wf(),
        ensures
            final(self).wf(),
            final(self)@ == old(self)@.insert(game@, scores@),
    {
        let ghost before = self.rows();
        let ghost incoming = scores@;
        proof {
            lemma_distinct_lists(before);
        }
        match self.position(game) {
            Some(i) => {
                self.games[i].1 = scores;
                proof {
                    let after = self.rows();
                    assert(after =~= before.update(i as int, (before[i as int].0, incoming)));
                    lemma_lists_update(before, old(self)@, i as int, incoming);
                    lemma_distinct_lists(after);
                    lemma_lists_one(after, self@, old(self)@.insert(game@, incoming));
                }
            },
            None => {
                self.games.push((game.to_owned(), scores));
                proof {
                    let after = self.rows();
                    assert(after =~= before.push((game@, incoming)));
                    lemma_lists_push(before, old(self)@, game@, incoming);
                    lemma_distinct_lists(after);
                    lemma_lists_one(after, self@, old(self)@.insert(game@, incoming));
                }
            },
        }
    }

    /// Submits `value` for `player` in `game` and returns the score that this
    /// leaves.
    ///
    /// With [`Mode::Overwrite`] the score becomes `value`; with [`Mode::Increment`]
    /// it becomes the score before, or zero where there was none, plus
    /// `value`. A game or player that was not recorded is recorded by this.
    /// No other score changes.
    pub fn upsert(&mut self, game: &str, player: &str, value: u64, mode: Mode) -> (resulting: u64)
        requires
            old(self).wf(),
            representable(old(self)@, game@, player@, value, mode),
        ensures
            final(self).wf(),
            resulting == resulting_score(score_in(old(self)@, game@, player@), value, mode),
            final(self)@ == submitted(old(self)@, game@, player@, value, mode),
    {
        let ghost before = self.rows();
        proof {
            lemma_distinct_lists(before);
        }
        match self.position(game) {
            Some(i) => {
                let previous = match self.games[i].1.get(player) {
                    Some(score) => score,
                    None => 0,
                };
                let resulting = match mode {
                    Mode::Overwrite => value,
                    Mode::Increment => previous + value,
                };
                self.games[i].1.set(player, resulting);
                proof {
                    let after = self.rows();
                    let changed = scores_of(old(self)@, game@).insert(player@, resulting);
                    assert(after =~= before.update(i as int, (before[i as int].0, changed)));
                    lemma_lists_update(before, old(self)@, i as int, changed);
                    lemma_distinct_lists(after);
                    lemma_lists_one(after, self@, old(self)@.insert(game@, changed));
                }
                resulting
            },
            None => {
                let mut scores = PlayerScores::new();
                scores.set(player, value);
                self.games.push((game.to_owned(), scores));
                proof {
                    let after = self.rows();
                    let fresh = Map::<Seq<char>, u64>::empty().insert(player@, value);
                    assert(after =~= before.push((game@, fresh)));
                    lemma_lists_push(before, old(self)@, game@, fresh);
                    lemma_distinct_lists(after);
                    lemma_lists_one(after, self@, old(self)@.insert(game@, fresh));
                }
                value
            },
        }
    }

    /// A snapshot of the whole state, as plain values: every game once, with
    /// the scores of each of its players once.
    pub fn to_entries(&self) -> (entries: Vec<(String, Vec<(String, u64)>)>)
        requires
            self.wf(),
        ensures
            is_snapshot(entries.deep_view(), self@),
    {
        let ghost rows = self.rows();
        proof {
            lemma_distinct_lists(rows);
        }
        let mut entries: Vec<(String, Vec<(String, u64)>)> = Vec::new();
        let mut i: usize = 0;
        while i < self.games.len()
            invariant
                i <= self.games.len(),
                self.wf(),
                rows == self.rows(),
                lists(rows, self@),
                entries.len() == i,
                forall|k: int|
                    0 <= k < i ==> (#[trigger] entries.deep_view()[k]).0 == rows[k].0 && lists(
                        entries.deep_view()[k].1,
                        rows[k].1,
                    ),
            decreases self.games.len() - i,
        {
            let ghost copied = entries@;
            let ghost listed = entries.deep_view();
            let name = self.games[i].0.clone();
            let scores = self.games[i].1.entries();
            entries.push((name, scores));
            proof {
                assert(entries@[i as int].deep_view() == (rows[i as int].0, scores.deep_view()));
                assert forall|k: int| 0 <= k < i + 1 implies (#[trigger] entries.deep_view()[k]).0
                    == rows[k].0 && lists(entries.deep_view()[k].1, rows[k].1) by {
                    if k < i {
                        assert(entries@[k] == copied[k]);
                        assert(entries.deep_view()[k] == listed[k]);
                    }
                }
            }
            i += 1;
        }
        proof {
            let listed = entries.deep_view();
            assert forall|a: int, b: int| 0 <= a < b < listed.len() implies listed[a].0
                != listed[b].0 by {
                assert(rows[a].0 != rows[b].0);
            }
            assert forall|k: int| 0 <= k < listed.len() implies self@.contains_key(
                (#[trigger] listed[k]).0,
            ) && lists(listed[k].1, self@[listed[k].0]) by {
                assert(self@.contains_pair(rows[k].0, rows[k].1));
            }
            assert forall|game: Seq<char>| #[trigger] self@.contains_key(game) implies names(
                listed,
                game,
            ) by {
                let k = choose|k: int| 0 <= k < rows.len() && (#[trigger] rows[k]).0 == game;
                assert(listed[k].0 == game);
            }
        }
        entries
    }

    /// The leaderboard that the entries record.
    pub fn from_entries(entries: &Vec<(String, Vec<(String, u64)>)>) -> (board: Leaderboard)
        ensures
            board.wf(),
            board@ == recorded(entries.deep_view()),
    {
        let ghost given = entries.deep_view();
        let ghost rows = given.map_values(
            |entry: (Seq<char>, Seq<(Seq<char>, u64)>)| (entry.0, as_map(entry.1)),
        );
        let mut board = Leaderboard::new();
        let mut i: usize = 0;
        assert(rows.take(0) =~= Seq::empty());
        while i < entries.len()
            invariant
                i <= entries.len(),
                given == entries.deep_view(),
                rows == given.map_values(
                    |entry: (Seq<char>, Seq<(Seq<char>, u64)>)| (entry.0, as_map(entry.1)),
                ),
                board.wf(),
                board@ == as_map(rows.take(i as int)),
            decreases entries.len() - i,
        {
            let ghost players = given[i as int].1;
            let mut scores = PlayerScores::new();
            let mut j: usize = 0;
            assert(players.take(0) =~= Seq::empty());
            while j < entries[i].1.len()
                invariant
                    i < entries.len(),
                    j <= entries[i as int].1.len(),
                    given == entries.deep_view(),
                    players == given[i as int].1,
                    scores.wf(),
                    scores@ == as_map(players.take(j as int)),
                decreases entries[i as int].1.len() - j,
            {
                scores.set(entries[i].1[j].0.as_str(), entries[i].1[j].1);
                assert(players.take(j + 1).drop_last() =~= players.take(j as int));
                j += 1;
            }
            assert(players.take(j as int) =~= players);
            board.insert_game(entries[i].0.as_str(), scores);
            assert(rows.take(i + 1).drop_last() =~= rows.take(i as int));
            i += 1;
        }
        assert(rows.take(i as int) =~= rows);
        board
    }

    /// Whether `other` records the same games with the same scores.
    pub fn same_as(&self, other: &Leaderboard) -> (same: bool)
        requires
            self.wf(),
            other.wf(),
        ensures
            same == (self@ == other@),
    {
        let ghost rows = self.rows();
        proof {
            lemma_distinct_lists(rows);
            lemma_lists_len(rows, self@);
            other.lemma_finite();
        }
        if self.len() != other.len() {
            return false;
        }
        let mut i: usize = 0;
        while i < self.games.len()
            invariant
                i <= self.games.len(),
                self.wf(),
                other.wf(),
                rows == self.rows(),
                lists(rows, self@),
                forall|k: int| 0 <= k < i ==> other@.contains_pair((#[trigger] rows[k]).0, rows[k].1),
            decreases self.games.len() - i,
        {
            assert(self@.contains_pair(rows[i as int].0, rows[i as int].1));
            match other.game(self.games[i].0.as_str()) {
                Some(scores) => {
                    if !self.games[i].1.same_as(scores) {
                        return false;
                    }
                },
                None => {
                    return false;
                },
            }
            i += 1;
        }
        proof {
            assert forall|name: Seq<char>| self@.contains_key(name) implies other@.contains_key(name)
                && other@[name] == self@[name] by {
                let k = choose|k: int| 0 <= k < rows.len() && (#[trigger] rows[k]).0 == name;
                assert(self@.contains_pair(rows[k].0, rows[k].1));
                assert(other@.contains_pair(rows[k].0, rows[k].1));
            }
            assert(self@.dom().subset_of(other@.dom()));
            lemma_subset_equality(self@.dom(), other@.dom());
            assert(self@ =~= other@);
        }
        true
    }

    /// A copy: the same games with the same scores.
    pub fn duplicate(&self) -> (copy: Leaderboard)
        requires
            self.wf(),
        ensures
            copy.wf(),
            copy@ == self@,
    {
        let mut games: Vec<(String, PlayerScores)> = Vec::new();
        let mut i: usize = 0;
        while i < self.games.len()
            invariant
                i <= self.games.len(),
                self.wf(),
                games.len() == i,
                forall|k: int|
                    0 <= k < i ==> (#[trigger] games@[k]).0@ == self.games[k].0@ && games@[k].1@
                        == self.games[k].1@ && games@[k].1.wf(),
            decreases self.games.len() - i,
        {
            let name = self.games[i].0.clone();
            let scores = self.games[i].1.duplicate();
            games.push((name, scores));
            i += 1;
        }
        let copy = Leaderboard { games };
        assert(copy.rows() =~= self.rows());
        copy
    }
}

} // verus!
