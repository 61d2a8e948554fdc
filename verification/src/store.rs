//! The score store: sole owner of the leaderboard held in memory.
//!
//! A read transaction borrows the store shared, a write transaction borrows
//! it exclusively, so no reader ever sees a write half applied and no two
//! writers overlap. The store does no input or output itself: it is made on
//! the state that was loaded, and a saved write hands out the bytes of the
//! whole state, to be written before the write is reported as done.

use crate::board::{representable, resulting_score, score_in, submitted, Leaderboard, Mode};
use crate::snapshot::{decoded, save, StoreError};
use vstd::prelude::*;

verus! {

/// The leaderboard in memory, with transactions on it.
///
/// Its view is the view of the leaderboard that it owns.
pub struct ScoreStore {
    board: Leaderboard,
}

impl View for ScoreStore {
    type V = Map<Seq<char>, Map<Seq<char>, u64>>;

    open spec fn view(&self) -> Map<Seq<char>, Map<Seq<char>, u64>> {
        self.state()@
    }
}

impl ScoreStore {
    /// The leaderboard that the store owns.
    pub closed spec fn state(&self) -> Leaderboard {
        self.board
    }

    /// The leaderboard that the store owns is well-formed.
    pub open spec fn wf(&self) -> bool {
        self.state().wf()
    }

    /// A store that owns `board`.
    pub fn new(board: Leaderboard) -> (store: ScoreStore)
        requires
            board.wf(),
        ensures
            store.wf(),
            store.state() == board,
    {
        ScoreStore { board }
    }

    /// Runs `task` on the leaderboard and returns what it returns. The
    /// leaderboard cannot change while `task` runs.
    pub fn read_transaction<R, F: FnOnce(&Leaderboard) -> R>(&self, task: F) -> (out: R)
        requires
            self.wf(),
            task.requires((&self.state(),)),
        ensures
            task.ensures((&self.state(),), out),
    {
        task(&self.board)
    }

    /// Runs `task` with exclusive access to the leaderboard and returns what
    /// it returns. The state after the call is the state in which `task` left
    /// the leaderboard; it is to be saved whole before the write is reported
    /// as done.
    pub fn write_transaction<R, F: FnOnce(&mut Leaderboard) -> R>(&mut self, task: F) -> (out: R)
        requires
            old(self).wf(),
            forall|board: &mut Leaderboard| *board == old(self).state() ==> task.requires((board,)),
            forall|board: &mut Leaderboard, out: R|
                *board == old(self).state() && task.ensures((board,), out) ==> final(board).wf(),
        ensures
            final(self).wf(),
            exists|board: &mut Leaderboard|
                *board == old(self).state() && *final(board) == final(self).state()
                    && task.ensures((board,), out),
    {
        task(&mut self.board)
    }

    /// Submits `value` for `player` in `game`, in one write transaction, and
    /// returns the score that this leaves.
    ///
    /// With [`Mode::Overwrite`] the score becomes `value`; with
    /// [`Mode::Increment`] it becomes the score before, or zero where there
    /// was none, plus `value`. No other score changes.
    pub fn upsert_score(&mut self, game: &str, player: &str, value: u64, mode: Mode) -> (resulting:
        u64)
        requires
            old(self).wf(),
            representable(old(self)@, game@, player@, value, mode),
        ensures
            final(self).wf(),
            resulting == resulting_score(score_in(old(self)@, game@, player@), value, mode),
            final(self)@ == submitted(old(self)@, game@, player@, value, mode),
    {
        let ghost before = self.board;
        let task = |board: &mut Leaderboard| -> (resulting: u64)
            requires
                *old(board) == before,
            ensures
                final(board).wf(),
                resulting == resulting_score(score_in(before@, game@, player@), value, mode),
                final(board)@ == submitted(before@, game@, player@, value, mode),
            { board.upsert(game, player, value, mode) };
        self.write_transaction(task)
    }

    /// Ends a write of which it is known how the save of the changed state
    /// went: the change is kept where the state was saved, and dropped where
    /// it was not. The outcome of the save is handed on as it is.
    pub fn commit(&mut self, changed: Leaderboard, saved: Result<Vec<u8>, StoreError>) -> (done:
        Result<Vec<u8>, StoreError>)
        requires
            old(self).wf(),
            changed.wf(),
        ensures
            final(self).wf(),
            done == saved,
            saved is Ok ==> final(self).state() == changed,
            saved is Err ==> final(self).state() == old(self).state(),
    {
        if saved.is_ok() {
            self.board = changed;
        }
        saved
    }

    /// Submits `value` for `player` in `game` as [`ScoreStore::upsert_score`]
    /// does, and saves the whole changed state before the change counts.
    ///
    /// On `Ok` the store holds the changed state, and the bytes that come
    /// with the score hold it too: they are to be written where the snapshot
    /// is kept. On `Err` the state could not be saved, and the store is as it
    /// was.
    pub fn upsert_score_saved(&mut self, game: &str, player: &str, value: u64, mode: Mode) -> (done:
        Result<(u64, Vec<u8>), StoreError>)
        requires
            old(self).wf(),
            representable(old(self)@, game@, player@, value, mode),
        ensures
            final(self).wf(),
            match done {
                Ok(written) => written.0 == resulting_score(
                    score_in(old(self)@, game@, player@),
                    value,
                    mode,
                ) && final(self)@ == submitted(old(self)@, game@, player@, value, mode)
                    && decoded(written.1@) == Some(final(self)@),
                Err(reason) => reason == StoreError::SnapshotSaveFailure && final(self)@ == old(
                    self,
                )@,
            },
    {
        let mut changed = self.board.duplicate();
        let resulting = changed.upsert(game, player, value, mode);
        let saved = save(&changed);
        match self.commit(changed, saved) {
            Ok(bytes) => Ok((resulting, bytes)),
            Err(reason) => Err(reason),
        }
    }

    /// The leaderboard, for reading.
    pub fn leaderboard(&self) -> (board: &Leaderboard)
        requires
            self.wf(),
        ensures
            board.wf(),
            board@ == self@,
            *board == self.state(),
    {
        &self.board
    }
}

} // verus!
