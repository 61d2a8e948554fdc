//! The operations that the leaderboard offers to the outside: listing the
//! games, ranked and plain views of a game, and the submission of a score.

use crate::auth::{check_credential, is_token, Admission, Authentication, LoginError};
use crate::board::{representable, resulting_score, score_in, scores_of, submitted, Leaderboard, Mode};
use crate::ranking::{is_ranking, is_top, rank};
use crate::snapshot::decoded;
use crate::store::ScoreStore;
use crate::table::lists;
use vstd::prelude::*;

verus! {

/// The number of rows of a ranked view when the request names none.
pub const DEFAULT_LIMIT: usize = 10;

/// The number of rows that a ranked view is cut to.
pub open spec fn limit_or_default(limit: Option<usize>) -> nat {
    match limit {
        Some(wanted) => wanted as nat,
        None => DEFAULT_LIMIT as nat,
    }
}

/// The submission mode that a request asks for: incrementing only where it
/// says so.
pub open spec fn mode_of(increment: Option<bool>) -> Mode {
    if increment == Some(true) {
        Mode::Increment
    } else {
        Mode::Overwrite
    }
}

/// What a request to put a score comes to, on a leaderboard in state
/// `board`: the score that it leaves, or the first reason in this order why
/// it is not carried out: no credential, no secret configured, a credential
/// that is no token of the secret, a score past 64 bits.
pub open spec fn put_outcome(
    board: Map<Seq<char>, Map<Seq<char>, u64>>,
    credential: Option<Seq<char>>,
    secret: Option<Seq<char>>,
    game: Seq<char>,
    player: Seq<char>,
    score: u64,
    increment: Option<bool>,
) -> Result<u64, SubmitError> {
    match credential {
        None => Err(SubmitError::Login(LoginError::NoSecret)),
        Some(presented) => match secret {
            None => Err(SubmitError::SecretMissing),
            Some(configured) => if !is_token(configured, presented) {
                Err(SubmitError::Login(LoginError::BadSecret))
            } else if !representable(board, game, player, score, mode_of(increment)) {
                Err(SubmitError::OutOfRange)
            } else {
                Ok(
                    resulting_score(score_in(board, game, player), score, mode_of(increment))
                        as u64,
                )
            },
        },
    }
}

/// Why a submission was not carried out.
#[derive(Clone, Copy, Debug, PartialEq, Eq, Structural)]
pub enum SubmitError {
    /// The request was turned away by the credential check.
    Login(LoginError),
    /// The request presented a credential, and no secret is configured to
    /// hold it against.
    SecretMissing,
    /// The score that the submission would leave cannot be held in 64 bits.
    OutOfRange,
    /// The state that the submission would leave could not be saved.
    SaveFailed,
}

/// The characters of a text that may be missing.
pub open spec fn shown(text: Option<&str>) -> Option<Seq<char>> {
    match text {
        Some(given) => Some(given@),
        None => None,
    }
}

/// The ranked view of `game` in `board`, cut to `limit` rows, and whether the
/// game has more players than that.
fn ranked_view(board: &Leaderboard, game: &str, limit: usize) -> (ranked: (Vec<(String, u64)>, bool))
    requires
        board.wf(),
    ensures
        is_top(ranked.0.deep_view(), scores_of(board@, game@), limit as nat),
        scores_of(board@, game@).dom().finite(),
        ranked.1 == (scores_of(board@, game@).dom().len() > limit),
        !board@.contains_key(game@) ==> ranked.0@.len() == 0 && !ranked.1,
{
    match board.game(game) {
        Some(scores) => rank(scores, Some(limit)),
        None => {
            let none: Vec<(String, u64)> = Vec::new();
            proof {
                let empty = Seq::<(Seq<char>, u64)>::empty();
                assert(is_ranking(empty, scores_of(board@, game@)));
                assert(none.deep_view() =~= empty.take(0));
            }
            (none, false)
        },
    }
}

/// The board of `game` in `board`: every player once where there is no
/// `limit`, the ranked view cut to `limit` rows where there is one.
fn board_view(board: &Leaderboard, game: &str, limit: Option<usize>) -> (rows: Vec<(String, u64)>)
    requires
        board.wf(),
    ensures
        match limit {
            Some(wanted) => is_top(rows.deep_view(), scores_of(board@, game@), wanted as nat),
            None => lists(rows.deep_view(), scores_of(board@, game@)),
        },
        !board@.contains_key(game@) ==> rows@.len() == 0,
{
    match limit {
        Some(wanted) => ranked_view(board, game, wanted).0,
        None => match board.game(game) {
            Some(scores) => scores.entries(),
            None => {
                let none: Vec<(String, u64)> = Vec::new();
                assert(none.deep_view() =~= Seq::<(Seq<char>, u64)>::empty());
                none
            },
        },
    }
}

/// The leaderboard service. Its view is the state of its store.
pub struct LeaderboardService {
    store: ScoreStore,
}

impl View for LeaderboardService {
    type V = Map<Seq<char>, Map<Seq<char>, u64>>;

    open spec fn view(&self) -> Map<Seq<char>, Map<Seq<char>, u64>> {
        self.store()@
    }
}

impl LeaderboardService {
    /// The store behind the service.
    pub closed spec fn store(&self) -> ScoreStore {
        self.store
    }

    /// The store behind the service is well-formed.
    pub open spec fn wf(&self) -> bool {
        self.store().wf()
    }

    /// A service on `store`.
    pub fn new(store: ScoreStore) -> (service: LeaderboardService)
        requires
            store.wf(),
        ensures
            service.wf(),
            service.store() == store,
    {
        LeaderboardService { store }
    }

    /// The store behind the service, for reading.
    pub fn score_store(&self) -> (store: &ScoreStore)
        ensures
            *store == self.store(),
    {
        &self.store
    }

    /// The names of all games, each once.
    pub fn list_games(&self) -> (games: Vec<String>)
        requires
            self.wf(),
        ensures
            games.deep_view().no_duplicates(),
            games.deep_view().to_set() == self@.dom(),
    {
        let task = |board: &Leaderboard| -> (games: Vec<String>)
            requires
                board.wf(),
            ensures
                games.deep_view().no_duplicates(),
                games.deep_view().to_set() == board@.dom(),
            { board.game_names() };
        self.store.read_transaction(task)
    }

    /// The ranked view of `game`: its players by falling score, cut to
    /// `limit` rows ([`DEFAULT_LIMIT`] where none is given), and whether the
    /// game has more players than that. A game that is not recorded has the
    /// empty view, and no more.
    pub fn get_ranked_scores(&self, game: &str, limit: Option<usize>) -> (ranked: (
        Vec<(String, u64)>,
        bool,
    ))
        requires
            self.wf(),
        ensures
            is_top(ranked.0.deep_view(), scores_of(self@, game@), limit_or_default(limit)),
            scores_of(self@, game@).dom().finite(),
            ranked.1 == (scores_of(self@, game@).dom().len() > limit_or_default(limit)),
            !self@.contains_key(game@) ==> ranked.0@.len() == 0 && !ranked.1,
    {
        let wanted = match limit {
            Some(wanted) => wanted,
            None => DEFAULT_LIMIT,
        };
        let task = |board: &Leaderboard| -> (ranked: (Vec<(String, u64)>, bool))
            requires
                board.wf(),
            ensures
                is_top(ranked.0.deep_view(), scores_of(board@, game@), wanted as nat),
                scores_of(board@, game@).dom().finite(),
                ranked.1 == (scores_of(board@, game@).dom().len() > wanted),
                !board@.contains_key(game@) ==> ranked.0@.len() == 0 && !ranked.1,
            { ranked_view(board, game, wanted) };
        self.store.read_transaction(task)
    }

    /// The board of `game`. Without a `limit` it holds every player of the
    /// game once, in no particular order; with one it is the ranked view cut
    /// to `limit` rows. A game that is not recorded has the empty board.
    pub fn get_board(&self, game: &str, limit: Option<usize>) -> (board: Vec<(String, u64)>)
        requires
            self.wf(),
        ensures
            match limit {
                Some(wanted) => is_top(board.deep_view(), scores_of(self@, game@), wanted as nat),
                None => lists(board.deep_view(), scores_of(self@, game@)),
            },
            !self@.contains_key(game@) ==> board@.len() == 0,
    {
        let task = |board: &Leaderboard| -> (rows: Vec<(String, u64)>)
            requires
                board.wf(),
            ensures
                match limit {
                    Some(wanted) => is_top(
                        rows.deep_view(),
                        scores_of(board@, game@),
                        wanted as nat,
                    ),
                    None => lists(rows.deep_view(), scores_of(board@, game@)),
                },
                !board@.contains_key(game@) ==> rows@.len() == 0,
            { board_view(board, game, limit) };
        self.store.read_transaction(task)
    }

    /// Submits `value` for `player` in `game` on behalf of a request that has
    /// passed the credential check, and returns the score that this leaves.
    /// After it the state is to be saved.
    pub fn submit_score(
        &mut self,
        _auth: &Authentication,
        game: &str,
        player: &str,
        value: u64,
        mode: Mode,
    ) -> (resulting: u64)
        requires
            old(self).wf(),
            representable(old(self)@, game@, player@, value, mode),
        ensures
            final(self).wf(),
            resulting == resulting_score(score_in(old(self)@, game@, player@), value, mode),
            final(self)@ == submitted(old(self)@, game@, player@, value, mode),
    {
        self.store.upsert_score(game, player, value, mode)
    }

    /// Decides whether a request to put a score is carried out: the
    /// credential must be accepted, and the score that is left must fit in 64
    /// bits.
    fn permitted(
        &self,
        credential: Option<&str>,
        secret: Option<&str>,
        game: &str,
        player: &str,
        score: u64,
        increment: Option<bool>,
    ) -> (checked: Result<(Authentication, Mode), SubmitError>)
        requires
            self.wf(),
        ensures
            match put_outcome(
                self@,
                shown(credential),
                shown(secret),
                game@,
                player@,
                score,
                increment,
            ) {
                Ok(_) => checked is Ok && checked->Ok_0.1 == mode_of(increment),
                Err(reason) => checked is Err && checked->Err_0 == reason,
            },
    {
        let mode = match increment {
            Some(true) => Mode::Increment,
            _ => Mode::Overwrite,
        };
        match check_credential(credential, secret) {
            Admission::Refused(refusal) => Err(SubmitError::Login(refusal)),
            Admission::SecretMissing => Err(SubmitError::SecretMissing),
            Admission::Granted(permit) => {
                let previous = match self.store.leaderboard().score(game, player) {
                    Some(recorded) => recorded,
                    None => 0,
                };
                let fits = match mode {
                    Mode::Overwrite => true,
                    Mode::Increment => score <= u64::MAX - previous,
                };
                if fits {
                    Ok((permit, mode))
                } else {
                    Err(SubmitError::OutOfRange)
                }
            },
        }
    }

    /// Handles a request to put a score, in memory only: checks the
    /// credential against the secret, where one is configured, and only
    /// where it is accepted submits the score.
    ///
    /// On `Ok` the state has changed as [`LeaderboardService::submit_score`]
    /// says and is to be saved. On `Err` the state is as it was, and nothing
    /// is to be saved.
    pub fn put_score(
        &mut self,
        credential: Option<&str>,
        secret: Option<&str>,
        game: &str,
        player: &str,
        score: u64,
        increment: Option<bool>,
    ) -> (outcome: Result<u64, SubmitError>)
        requires
            old(self).wf(),
        ensures
            final(self).wf(),
            outcome == put_outcome(
                old(self)@,
                shown(credential),
                shown(secret),
                game@,
                player@,
                score,
                increment,
            ),
            outcome is Ok ==> final(self)@ == submitted(
                old(self)@,
                game@,
                player@,
                score,
                mode_of(increment),
            ),
            outcome is Err ==> final(self)@ == old(self)@,
    {
        match self.permitted(credential, secret, game, player, score, increment) {
            Err(reason) => Err(reason),
            Ok((permit, mode)) => Ok(self.submit_score(&permit, game, player, score, mode)),
        }
    }

    /// Handles a request to put a score, and saves: checks the credential
    /// as [`LeaderboardService::put_score`] does, submits the score, and
    /// keeps the change only where the whole changed state could be saved.
    ///
    /// A request that [`put_outcome`] refuses is refused here for the same
    /// reason. Any other ends in one of two ways. On `Ok` the state has
    /// changed, and with the score that is left come the bytes that hold the
    /// changed state: they are to be written where the snapshot is kept. On
    /// [`SubmitError::SaveFailed`] the changed state could not be saved. On
    /// every `Err` the state is as it was, and nothing is to be written.
    pub fn put_score_saved(
        &mut self,
        credential: Option<&str>,
        secret: Option<&str>,
        game: &str,
        player: &str,
        score: u64,
        increment: Option<bool>,
    ) -> (outcome: Result<(u64, Vec<u8>), SubmitError>)
        requires
            old(self).wf(),
        ensures
            final(self).wf(),
            match put_outcome(
                old(self)@,
                shown(credential),
                shown(secret),
                game@,
                player@,
                score,
                increment,
            ) {
                Err(reason) => outcome is Err && outcome->Err_0 == reason,
                Ok(resulting) => match outcome {
                    Ok(written) => written.0 == resulting && final(self)@ == submitted(
                        old(self)@,
                        game@,
                        player@,
                        score,
                        mode_of(increment),
                    ) && decoded(written.1@) == Some(final(self)@),
                    Err(reason) => reason == SubmitError::SaveFailed,
                },
            },
            outcome is Err ==> final(self)@ == old(self)@,
    {
        match self.permitted(credential, secret, game, player, score, increment) {
            Err(reason) => Err(reason),
            Ok((_, mode)) => match self.store.upsert_score_saved(game, player, score, mode) {
                Ok(written) => Ok(written),
                Err(_) => Err(SubmitError::SaveFailed),
            },
        }
    }
}

} // verus!
