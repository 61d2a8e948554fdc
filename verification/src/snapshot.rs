//! Snapshots: the whole leaderboard as the bytes of a file, and back.
//!
//! The bytes are RON text, written and read by the `rustbreak` crate. This
//! module does no input or output: it turns the state into the bytes to be
//! written, and what was read into the state.
//!
//! The decoder goes one call deeper into the stack for every comment that it
//! skips. So bytes are handed to it only where they hold no more than
//! [`MAX_COMMENT_OPENERS`] places at which a comment could open; bytes with
//! more are not read as a leaderboard.

use crate::board::{recorded, Leaderboard};
use crate::table::distinct;
use rustbreak::deser::{DeSerializer, Ron};
use rustbreak::error::DeSerError;
use std::collections::BTreeMap;
use vstd::prelude::*;

verus! {

/// The error of `rustbreak`'s encoders and decoders. Nothing is known of a
/// value of it.
#[verifier::external_type_specification]
#[verifier::external_body]
pub struct ExDeSerError(rustbreak::error::DeSerError);

/// What `rustbreak::deser::Ron` reads from `bytes` as a map from names to
/// maps from names to 64-bit numbers: the entries in rising order of the
/// names, or `None` where the bytes are not RON text of such a map.
pub uninterp spec fn ron_entries(bytes: Seq<u8>) -> Option<
    Seq<(Seq<char>, Seq<(Seq<char>, u64)>)>,
>;

/// Calls `DeSerializer::deserialize` of `rustbreak::deser::Ron` on the bytes,
/// for a `BTreeMap` of `BTreeMap`s, and hands out the entries in the order of
/// the maps. The contract claims only that the outcome is fixed by the bytes:
/// it is what [`ron_entries`] names. The bytes may hold only so many comment
/// openers, since the decoder calls itself once more for each comment.
#[verifier::external_body]
fn ron_decode(bytes: &[u8]) -> (read: Result<Vec<(String, Vec<(String, u64)>)>, DeSerError>)
    requires
        readable(bytes@),
    ensures
        match read {
            Ok(entries) => ron_entries(bytes@) == Some(entries.deep_view()),
            Err(_) => ron_entries(bytes@) is None,
        },
{
    let games: BTreeMap<String, BTreeMap<String, u64>> = Ron.deserialize(bytes)?;
    Ok(games.into_iter().map(|(game, scores)| (game, scores.into_iter().collect())).collect())
}

/// Calls `DeSerializer::serialize` of `rustbreak::deser::Ron` on the entries,
/// as a `BTreeMap` of `BTreeMap`s. Nothing is claimed of the bytes that come
/// back. No name may repeat, so that every entry reaches the encoder.
#[verifier::external_body]
fn ron_encode(entries: &Vec<(String, Vec<(String, u64)>)>) -> (written: Result<Vec<u8>, DeSerError>)
    requires
        no_repeats(entries.deep_view()),
{
    let games: BTreeMap<String, BTreeMap<String, u64>> = entries.iter().map(
        |(game, scores)| (game.clone(), scores.iter().cloned().collect()),
    ).collect();
    Ron.serialize(&games)
}

/// No game is named twice, and no player twice within a game.
pub open spec fn no_repeats(entries: Seq<(Seq<char>, Seq<(Seq<char>, u64)>)>) -> bool {
    &&& distinct(entries)
    &&& forall|i: int| 0 <= i < entries.len() ==> distinct((#[trigger] entries[i]).1)
}

/// The most places at which a comment could open that bytes may hold and
/// still be read.
pub const MAX_COMMENT_OPENERS: usize = 1000;

/// A comment could open at `at`: there stands a `/`, and after it a `/` or a
/// `*`.
pub open spec fn opens_comment(bytes: Seq<u8>, at: int) -> bool {
    &&& 0 <= at
    &&& at + 1 < bytes.len()
    &&& bytes[at] == 0x2Fu8
    &&& (bytes[at + 1] == 0x2Fu8 || bytes[at + 1] == 0x2Au8)
}

/// The number of places before `upto` at which a comment could open.
pub open spec fn openers_before(bytes: Seq<u8>, upto: int) -> nat
    decreases upto,
{
    if upto <= 0 {
        0
    } else {
        openers_before(bytes, upto - 1) + if opens_comment(bytes, upto - 1) {
            1nat
        } else {
            0nat
        }
    }
}

/// The bytes hold few enough places at which a comment could open to be
/// handed to the decoder.
pub open spec fn readable(bytes: Seq<u8>) -> bool {
    openers_before(bytes, bytes.len() as int) <= MAX_COMMENT_OPENERS
}

/// The leaderboard that `bytes` hold, or `None` where they hold none: where
/// they are not [`readable`], or are not RON text of a leaderboard.
pub open spec fn decoded(bytes: Seq<u8>) -> Option<Map<Seq<char>, Map<Seq<char>, u64>>> {
    if readable(bytes) {
        match ron_entries(bytes) {
            Some(entries) => Some(recorded(entries)),
            None => None,
        }
    } else {
        None
    }
}

/// Whether the bytes may be handed to the decoder.
pub fn is_readable(bytes: &[u8]) -> (yes: bool)
    ensures
        yes == readable(bytes@),
{
    let mut openers: usize = 0;
    let mut at: usize = 0;
    while at + 1 < bytes.len()
        invariant
            at <= bytes.len(),
            bytes.len() == 0 || at < bytes.len(),
            openers <= at,
            openers == openers_before(bytes@, at as int),
        decreases bytes.len() - at,
    {
        if bytes[at] == 0x2F && (bytes[at + 1] == 0x2F || bytes[at + 1] == 0x2A) {
            openers += 1;
        }
        at += 1;
    }
    assert(openers == openers_before(bytes@, bytes.len() as int)) by {
        if bytes.len() > 0 {
            assert(!opens_comment(bytes@, bytes.len() - 1));
        }
    }
    openers <= MAX_COMMENT_OPENERS
}

/// Reads the entries that the bytes hold, where they hold a leaderboard.
fn decode(bytes: &[u8]) -> (read: Option<Vec<(String, Vec<(String, u64)>)>>)
    ensures
        match read {
            Some(entries) => decoded(bytes@) == Some(recorded(entries.deep_view())),
            None => decoded(bytes@) is None,
        },
{
    if !is_readable(bytes) {
        return None;
    }
    match ron_decode(bytes) {
        Ok(entries) => Some(entries),
        Err(_) => None,
    }
}

/// What was found where the snapshot is kept.
pub enum Snapshot {
    /// Nothing has been saved there yet.
    Missing,
    /// Something is there that cannot be read as a leaderboard.
    Corrupt,
    /// The entries that were read there.
    Entries(Vec<(String, Vec<(String, u64)>)>),
}

/// Why the state could not be loaded or saved.
#[derive(Clone, Copy, Debug, PartialEq, Eq, Structural)]
pub enum StoreError {
    /// The snapshot cannot be read as a leaderboard.
    SnapshotLoadFailure,
    /// The state could not be turned into a snapshot that reads back as it.
    SnapshotSaveFailure,
}

/// `loaded` is what loading gives for a snapshot with these contents, `None`
/// standing for no snapshot at all: the empty leaderboard where there is no
/// snapshot, the leaderboard that the bytes hold where they hold one, and
/// else the error. Bytes with more than [`MAX_COMMENT_OPENERS`] places at
/// which a comment could open hold none.
pub open spec fn loads_as(contents: Option<Seq<u8>>, loaded: Result<Leaderboard, StoreError>) -> bool {
    match contents {
        None => loaded is Ok && loaded->Ok_0.wf() && loaded->Ok_0@ == Map::<
            Seq<char>,
            Map<Seq<char>, u64>,
        >::empty(),
        Some(bytes) => match decoded(bytes) {
            Some(board) => loaded is Ok && loaded->Ok_0.wf() && loaded->Ok_0@ == board,
            None => loaded is Err && loaded->Err_0 == StoreError::SnapshotLoadFailure,
        },
    }
}

/// The state to start from, given what was found where the snapshot is kept.
///
/// Where nothing was saved yet the leaderboard starts empty. A snapshot that
/// cannot be read is an error: there is no starting on a state that is not
/// known.
pub fn restore(found: Snapshot) -> (loaded: Result<Leaderboard, StoreError>)
    ensures
        match found {
            Snapshot::Missing => loaded is Ok && loaded->Ok_0.wf() && loaded->Ok_0@ == Map::<
                Seq<char>,
                Map<Seq<char>, u64>,
            >::empty(),
            Snapshot::Corrupt => loaded is Err && loaded->Err_0 == StoreError::SnapshotLoadFailure,
            Snapshot::Entries(entries) => loaded is Ok && loaded->Ok_0.wf() && loaded->Ok_0@
                == recorded(entries.deep_view()),
        },
{
    match found {
        Snapshot::Missing => Ok(Leaderboard::new()),
        Snapshot::Corrupt => Err(StoreError::SnapshotLoadFailure),
        Snapshot::Entries(entries) => Ok(Leaderboard::from_entries(&entries)),
    }
}

/// Loads the state from the contents of the snapshot file, `None` standing
/// for a file that does not exist.
pub fn load(contents: Option<&[u8]>) -> (loaded: Result<Leaderboard, StoreError>)
    ensures
        loads_as(
            match contents {
                Some(bytes) => Some(bytes@),
                None => None,
            },
            loaded,
        ),
{
    let found = match contents {
        None => Snapshot::Missing,
        Some(bytes) => match decode(bytes) {
            Some(entries) => Snapshot::Entries(entries),
            None => Snapshot::Corrupt,
        },
    };
    restore(found)
}

/// Decides what a save hands out, given what the encoder wrote for `board`,
/// `None` standing for an encoder that failed.
///
/// The bytes are read back: they are handed out, unchanged, exactly where
/// they hold `board`. Where the encoder failed, or wrote what does not read
/// back as `board`, the save has failed.
pub fn confirm(board: &Leaderboard, written: Option<Vec<u8>>) -> (saved: Result<Vec<u8>, StoreError>)
    requires
        board.wf(),
    ensures
        saved is Ok <==> (written is Some && decoded(written->Some_0@) == Some(board@)),
        saved is Ok ==> saved->Ok_0@ == written->Some_0@,
        saved is Err ==> saved->Err_0 == StoreError::SnapshotSaveFailure,
{
    match written {
        None => Err(StoreError::SnapshotSaveFailure),
        Some(bytes) => match decode(bytes.as_slice()) {
            Some(read) => {
                let copy = Leaderboard::from_entries(&read);
                if board.same_as(&copy) {
                    Ok(bytes)
                } else {
                    Err(StoreError::SnapshotSaveFailure)
                }
            },
            None => Err(StoreError::SnapshotSaveFailure),
        },
    }
}

/// Turns the whole state into the bytes of a snapshot.
///
/// Every game and every player is handed to the encoder once, and what the
/// encoder wrote goes through [`confirm`]: so whatever is returned loads as
/// the state that was saved. Whether the encoder succeeds is for the encoder
/// to say.
pub fn save(board: &Leaderboard) -> (saved: Result<Vec<u8>, StoreError>)
    requires
        board.wf(),
    ensures
        match saved {
            Ok(bytes) => decoded(bytes@) == Some(board@),
            Err(reason) => reason == StoreError::SnapshotSaveFailure,
        },
{
    let entries = board.to_entries();
    let written = match ron_encode(&entries) {
        Ok(bytes) => Some(bytes),
        Err(_) => None,
    };
    confirm(board, written)
}

/// What was saved loads as the state that was saved: the bytes that
/// [`save`] hands out for a leaderboard satisfy `decoded(bytes) ==
/// Some(board)`, and loading such bytes succeeds with that leaderboard.
pub proof fn lemma_saved_state_loads(
    bytes: Seq<u8>,
    board: Map<Seq<char>, Map<Seq<char>, u64>>,
    loaded: Result<Leaderboard, StoreError>,
)
    requires
        decoded(bytes) == Some(board),
        loads_as(Some(bytes), loaded),
    ensures
        loaded is Ok,
        loaded->Ok_0@ == board,
{
}

} // verus!
