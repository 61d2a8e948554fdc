//! What holds of submissions, whatever the leaderboard and the values.

use crate::board::{resulting_score, score_in, scores_of, submitted, Mode};
use vstd::prelude::*;

verus! {

/// `board` after `times` submissions of `value` for `player` in `game`, one
/// after the other.
pub open spec fn repeated(
    board: Map<Seq<char>, Map<Seq<char>, u64>>,
    game: Seq<char>,
    player: Seq<char>,
    value: u64,
    mode: Mode,
    times: nat,
) -> Map<Seq<char>, Map<Seq<char>, u64>>
    decreases times,
{
    if times == 0 {
        board
    } else {
        submitted(repeated(board, game, player, value, mode, (times - 1) as nat), game, player, value, mode)
    }
}

/// After a submission the player has the score that the submission leaves.
pub proof fn lemma_submitted_score(
    board: Map<Seq<char>, Map<Seq<char>, u64>>,
    game: Seq<char>,
    player: Seq<char>,
    value: u64,
    mode: Mode,
)
    requires
        resulting_score(score_in(board, game, player), value, mode) <= u64::MAX,
    ensures
        scores_of(submitted(board, game, player, value, mode), game).contains_key(player),
        score_in(submitted(board, game, player, value, mode), game, player) == resulting_score(
            score_in(board, game, player),
            value,
            mode,
        ),
{
}

/// A submission changes no score but that of its player in its game: every
/// other player of every game keeps the score, and anyone without a score
/// stays without one.
pub proof fn lemma_submission_spares_others(
    board: Map<Seq<char>, Map<Seq<char>, u64>>,
    game: Seq<char>,
    player: Seq<char>,
    value: u64,
    mode: Mode,
    other_game: Seq<char>,
    other_player: Seq<char>,
)
    requires
        other_game != game || other_player != player,
    ensures
        scores_of(submitted(board, game, player, value, mode), other_game).contains_key(
            other_player,
        ) == scores_of(board, other_game).contains_key(other_player),
        score_in(submitted(board, game, player, value, mode), other_game, other_player)
            == score_in(board, other_game, other_player),
{
}

/// Overwriting twice leaves the second value: the board is as if only the
/// second submission had been made.
pub proof fn lemma_overwrite_replaces(
    board: Map<Seq<char>, Map<Seq<char>, u64>>,
    game: Seq<char>,
    player: Seq<char>,
    first: u64,
    second: u64,
)
    ensures
        score_in(
            submitted(
                submitted(board, game, player, first, Mode::Overwrite),
                game,
                player,
                second,
                Mode::Overwrite,
            ),
            game,
            player,
        ) == second,
        submitted(
            submitted(board, game, player, first, Mode::Overwrite),
            game,
            player,
            second,
            Mode::Overwrite,
        ) == submitted(board, game, player, second, Mode::Overwrite),
{
    let once = submitted(board, game, player, first, Mode::Overwrite);
    let twice = submitted(once, game, player, second, Mode::Overwrite);
    let direct = submitted(board, game, player, second, Mode::Overwrite);
    assert(twice[game] =~= direct[game]);
    assert(twice =~= direct);
}

/// Two increments in a row add both values to the score; a player without a
/// score starts from zero.
pub proof fn lemma_increments_add_up(
    board: Map<Seq<char>, Map<Seq<char>, u64>>,
    game: Seq<char>,
    player: Seq<char>,
    first: u64,
    second: u64,
)
    requires
        score_in(board, game, player) + first + second <= u64::MAX,
    ensures
        score_in(
            submitted(
                submitted(board, game, player, first, Mode::Increment),
                game,
                player,
                second,
                Mode::Increment,
            ),
            game,
            player,
        ) == score_in(board, game, player) + first + second,
        !scores_of(board, game).contains_key(player) ==> score_in(
            submitted(board, game, player, first, Mode::Increment),
            game,
            player,
        ) == first,
{
}

/// However many increments are made one after the other, none is lost: the
/// score grows by the value each time.
pub proof fn lemma_repeated_increments(
    board: Map<Seq<char>, Map<Seq<char>, u64>>,
    game: Seq<char>,
    player: Seq<char>,
    value: u64,
    times: nat,
)
    requires
        score_in(board, game, player) + times * value <= u64::MAX,
    ensures
        score_in(repeated(board, game, player, value, Mode::Increment, times), game, player)
            == score_in(board, game, player) + times * value,
    decreases times,
{
    if times == 0 {
        assert(times * value == 0) by (nonlinear_arith)
            requires
                times == 0,
        ;
    } else {
        let fewer = (times - 1) as nat;
        assert(times * value == fewer * value + value && fewer * value >= 0) by (nonlinear_arith)
            requires
                fewer == times - 1,
                fewer >= 0,
                value >= 0,
        ;
        lemma_repeated_increments(board, game, player, value, fewer);
        let earlier = repeated(board, game, player, value, Mode::Increment, fewer);
        lemma_submitted_score(earlier, game, player, value, Mode::Increment);
    }
}

/// Two increments give the same board in either order, so the order in which
/// concurrent writers get their turn does not show in the result. Each score
/// must have room for what is added to it: for both values where the two
/// increments are for the same player of the same game, else for its own.
pub proof fn lemma_increments_commute(
    board: Map<Seq<char>, Map<Seq<char>, u64>>,
    game: Seq<char>,
    player: Seq<char>,
    value: u64,
    other_game: Seq<char>,
    other_player: Seq<char>,
    other_value: u64,
)
    requires
        score_in(board, game, player) + value <= u64::MAX,
        score_in(board, other_game, other_player) + other_value <= u64::MAX,
        game == other_game && player == other_player ==> score_in(board, game, player) + value
            + other_value <= u64::MAX,
    ensures
        submitted(
            submitted(board, game, player, value, Mode::Increment),
            other_game,
            other_player,
            other_value,
            Mode::Increment,
        ) == submitted(
            submitted(board, other_game, other_player, other_value, Mode::Increment),
            game,
            player,
            value,
            Mode::Increment,
        ),
{
    let one = submitted(board, game, player, value, Mode::Increment);
    let one_two = submitted(one, other_game, other_player, other_value, Mode::Increment);
    let two = submitted(board, other_game, other_player, other_value, Mode::Increment);
    let two_one = submitted(two, game, player, value, Mode::Increment);
    assert(one_two[game] =~= two_one[game]);
    assert(one_two[other_game] =~= two_one[other_game]);
    assert(one_two =~= two_one);
}

/// `board` after the increments `calls`, each a game, a player and a value,
/// made one after the other in the order of `calls`.
pub open spec fn incremented(
    board: Map<Seq<char>, Map<Seq<char>, u64>>,
    calls: Seq<(Seq<char>, Seq<char>, u64)>,
) -> Map<Seq<char>, Map<Seq<char>, u64>>
    decreases calls.len(),
{
    if calls.len() == 0 {
        board
    } else {
        submitted(
            incremented(board, calls.drop_last()),
            calls.last().0,
            calls.last().1,
            calls.last().2,
            Mode::Increment,
        )
    }
}

/// The sum of the values that `calls` add for `player` in `game`.
pub open spec fn added(
    calls: Seq<(Seq<char>, Seq<char>, u64)>,
    game: Seq<char>,
    player: Seq<char>,
) -> int
    decreases calls.len(),
{
    if calls.len() == 0 {
        0
    } else {
        added(calls.drop_last(), game, player) + if calls.last().0 == game && calls.last().1
            == player {
            calls.last().2 as int
        } else {
            0
        }
    }
}

/// No update is lost. Writers take the leaderboard one at a time, in some
/// order; `calls` lists their increments in that order. Whatever the order,
/// every player ends with the score before plus all that was added for that
/// player.
pub proof fn lemma_every_increment_counts(
    board: Map<Seq<char>, Map<Seq<char>, u64>>,
    calls: Seq<(Seq<char>, Seq<char>, u64)>,
    game: Seq<char>,
    player: Seq<char>,
)
    requires
        forall|g: Seq<char>, p: Seq<char>|
            score_in(board, g, p) + #[trigger] added(calls, g, p) <= u64::MAX,
    ensures
        score_in(incremented(board, calls), game, player) == score_in(board, game, player) + added(
            calls,
            game,
            player,
        ),
    decreases calls.len(),
{
    if calls.len() > 0 {
        let earlier = calls.drop_last();
        let last = calls.last();
        assert forall|g: Seq<char>, p: Seq<char>|
            score_in(board, g, p) + #[trigger] added(earlier, g, p) <= u64::MAX by {
            assert(added(earlier, g, p) <= added(calls, g, p));
        }
        lemma_every_increment_counts(board, earlier, game, player);
        lemma_every_increment_counts(board, earlier, last.0, last.1);
        let before = incremented(board, earlier);
        assert(score_in(before, last.0, last.1) + last.2 <= u64::MAX) by {
            assert(added(calls, last.0, last.1) == added(earlier, last.0, last.1) + last.2);
        }
        if last.0 == game && last.1 == player {
            lemma_submitted_score(before, game, player, last.2, Mode::Increment);
        } else {
            lemma_submission_spares_others(
                before,
                last.0,
                last.1,
                last.2,
                Mode::Increment,
                game,
                player,
            );
        }
    }
}

/// Writers that each add one for the same player add as much as there are
/// writers.
pub proof fn lemma_units_add_to_their_number(
    calls: Seq<(Seq<char>, Seq<char>, u64)>,
    game: Seq<char>,
    player: Seq<char>,
)
    requires
        forall|i: int| 0 <= i < calls.len() ==> #[trigger] calls[i] == (game, player, 1u64),
    ensures
        added(calls, game, player) == calls.len(),
    decreases calls.len(),
{
    if calls.len() > 0 {
        assert(calls.last() == calls[calls.len() - 1]);
        lemma_units_add_to_their_number(calls.drop_last(), game, player);
    }
}

} // verus!
