use leaderboard::auth::{authenticate, LoginError};
use leaderboard::board::{Leaderboard, Mode};
use leaderboard::service::{LeaderboardService, SubmitError};
use leaderboard::snapshot::load;
use leaderboard::store::ScoreStore;

fn service() -> LeaderboardService {
    LeaderboardService::new(ScoreStore::new(Leaderboard::new()))
}

#[test]
fn overwrite_twice_keeps_the_second_value() {
    let permit = authenticate(Some("s"), "s").unwrap();
    let mut svc = service();
    assert_eq!(svc.submit_score(&permit, "g", "p", 100, Mode::Overwrite), 100);
    assert_eq!(svc.submit_score(&permit, "g", "p", 50, Mode::Overwrite), 50);
    assert_eq!(svc.score_store().leaderboard().score("g", "p"), Some(50));
}

#[test]
fn increments_add_up() {
    let permit = authenticate(Some("s"), "s").unwrap();
    let mut svc = service();
    assert_eq!(svc.submit_score(&permit, "g", "p", 10, Mode::Increment), 10);
    assert_eq!(svc.submit_score(&permit, "g", "p", 5, Mode::Increment), 15);
    assert_eq!(svc.score_store().leaderboard().score("g", "p"), Some(15));
}

#[test]
fn increment_of_a_new_player_starts_from_zero() {
    let permit = authenticate(Some("s"), "s").unwrap();
    let mut svc = service();
    svc.submit_score(&permit, "g", "p", 10, Mode::Increment);
    assert_eq!(svc.submit_score(&permit, "g", "new", 7, Mode::Increment), 7);
    assert_eq!(svc.score_store().leaderboard().score("g", "new"), Some(7));
    assert_eq!(svc.score_store().leaderboard().score("g", "p"), Some(10));
}

#[test]
fn increment_after_overwrite_adds_to_the_overwritten_score() {
    let mut board = Leaderboard::new();
    assert_eq!(board.upsert("g", "p", 40, Mode::Overwrite), 40);
    assert_eq!(board.upsert("g", "p", 2, Mode::Increment), 42);
    assert_eq!(board.upsert("g", "p", 0, Mode::Increment), 42);
    assert_eq!(board.upsert("g", "p", 0, Mode::Overwrite), 0);
    assert_eq!(board.score("g", "p"), Some(0));
}

#[test]
fn a_submission_changes_no_other_score() {
    let mut board = Leaderboard::new();
    board.upsert("chess", "ann", 3, Mode::Overwrite);
    board.upsert("chess", "bob", 4, Mode::Overwrite);
    board.upsert("go", "ann", 5, Mode::Overwrite);
    board.upsert("chess", "ann", 10, Mode::Increment);
    assert_eq!(board.score("chess", "ann"), Some(13));
    assert_eq!(board.score("chess", "bob"), Some(4));
    assert_eq!(board.score("go", "ann"), Some(5));
    assert_eq!(board.score("go", "bob"), None);
    assert_eq!(board.score("draughts", "ann"), None);
    assert_eq!(board.len(), 2);
}

#[test]
fn the_same_name_in_two_games_is_two_players() {
    let mut board = Leaderboard::new();
    board.upsert("a", "p", 1, Mode::Overwrite);
    board.upsert("b", "p", 2, Mode::Overwrite);
    assert_eq!(board.score("a", "p"), Some(1));
    assert_eq!(board.score("b", "p"), Some(2));
}

#[test]
fn names_are_compared_character_by_character() {
    let mut board = Leaderboard::new();
    board.upsert("g", "zoë", 1, Mode::Overwrite);
    board.upsert("g", "zoe", 2, Mode::Overwrite);
    board.upsert("g", "", 3, Mode::Overwrite);
    board.upsert("g", "zoë", 4, Mode::Increment);
    assert_eq!(board.score("g", "zoë"), Some(5));
    assert_eq!(board.score("g", "zoe"), Some(2));
    assert_eq!(board.score("g", ""), Some(3));
    assert_eq!(board.score("g", "zo"), None);
    assert_eq!(board.game("g").unwrap().len(), 3);
}

#[test]
fn a_thousand_increments_of_one_give_a_thousand() {
    let mut store = ScoreStore::new(Leaderboard::new());
    let mut last = 0;
    for _ in 0..1000 {
        last = store.upsert_score("g", "p", 1, Mode::Increment);
    }
    assert_eq!(last, 1000);
    assert_eq!(store.leaderboard().score("g", "p"), Some(1000));
}

#[test]
fn increments_of_two_writers_give_the_same_in_either_order() {
    let mut one = ScoreStore::new(Leaderboard::new());
    one.upsert_score("g", "p", 3, Mode::Increment);
    one.upsert_score("g", "q", 4, Mode::Increment);
    one.upsert_score("g", "p", 5, Mode::Increment);
    let mut other = ScoreStore::new(Leaderboard::new());
    other.upsert_score("g", "p", 5, Mode::Increment);
    other.upsert_score("g", "p", 3, Mode::Increment);
    other.upsert_score("g", "q", 4, Mode::Increment);
    assert_eq!(one.leaderboard().score("g", "p"), Some(8));
    assert_eq!(other.leaderboard().score("g", "p"), Some(8));
    assert_eq!(one.leaderboard().score("g", "q"), other.leaderboard().score("g", "q"));
}

#[test]
fn the_highest_score_can_be_reached_exactly() {
    let mut store = ScoreStore::new(Leaderboard::new());
    store.upsert_score("g", "p", u64::MAX - 1, Mode::Overwrite);
    assert_eq!(store.upsert_score("g", "p", 1, Mode::Increment), u64::MAX);
}

#[test]
fn put_score_overwrites_unless_told_to_increment() {
    let mut svc = service();
    assert_eq!(svc.put_score(Some("s"), Some("s"), "g", "p", 10, None), Ok(10));
    assert_eq!(svc.put_score(Some("s"), Some("s"), "g", "p", 4, None), Ok(4));
    assert_eq!(svc.put_score(Some("s"), Some("s"), "g", "p", 5, Some(true)), Ok(9));
    assert_eq!(svc.put_score(Some("s"), Some("s"), "g", "p", 2, Some(false)), Ok(2));
    assert_eq!(svc.score_store().leaderboard().score("g", "p"), Some(2));
}

#[test]
fn put_score_without_credential_changes_nothing() {
    let mut svc = service();
    svc.put_score(Some("s"), Some("s"), "g", "p", 10, None).unwrap();
    assert_eq!(
        svc.put_score(None, Some("s"), "g", "p", 99, None),
        Err(SubmitError::Login(LoginError::NoSecret))
    );
    assert_eq!(
        svc.put_score(None, Some("s"), "other", "q", 99, Some(true)),
        Err(SubmitError::Login(LoginError::NoSecret))
    );
    assert_eq!(svc.score_store().leaderboard().score("g", "p"), Some(10));
    assert_eq!(svc.list_games(), vec!["g".to_string()]);
}

#[test]
fn put_score_with_a_wrong_credential_changes_nothing() {
    let mut svc = service();
    svc.put_score(Some("s"), Some("s t"), "g", "p", 10, None).unwrap();
    assert_eq!(
        svc.put_score(Some("u"), Some("s t"), "g", "p", 99, None),
        Err(SubmitError::Login(LoginError::BadSecret))
    );
    assert_eq!(
        svc.put_score(Some("s t"), Some("s t"), "new", "p", 99, None),
        Err(SubmitError::Login(LoginError::BadSecret))
    );
    assert_eq!(svc.score_store().leaderboard().score("g", "p"), Some(10));
    assert_eq!(svc.score_store().leaderboard().score("new", "p"), None);
    assert_eq!(svc.list_games().len(), 1);
}

#[test]
fn put_score_refuses_a_score_beyond_64_bits() {
    let mut svc = service();
    svc.put_score(Some("s"), Some("s"), "g", "p", u64::MAX, None).unwrap();
    assert_eq!(
        svc.put_score(Some("s"), Some("s"), "g", "p", 1, Some(true)),
        Err(SubmitError::OutOfRange)
    );
    assert_eq!(svc.score_store().leaderboard().score("g", "p"), Some(u64::MAX));
    assert_eq!(svc.put_score(Some("s"), Some("s"), "g", "p", 0, Some(true)), Ok(u64::MAX));
    assert_eq!(svc.put_score(Some("s"), Some("s"), "g", "q", u64::MAX, Some(true)), Ok(u64::MAX));
}

#[test]
fn put_score_with_the_empty_credential_changes_nothing() {
    let mut svc = service();
    svc.put_score(Some("a"), Some("a  b"), "g", "p", 10, None).unwrap();
    assert_eq!(
        svc.put_score(Some(""), Some("a  b"), "g", "p", 99, None),
        Err(SubmitError::Login(LoginError::BadSecret))
    );
    assert_eq!(
        svc.put_score(Some(""), Some("a\n"), "g", "p", 99, None),
        Err(SubmitError::Login(LoginError::BadSecret))
    );
    assert_eq!(
        svc.put_score(Some(""), Some(""), "new", "p", 99, Some(true)),
        Err(SubmitError::Login(LoginError::BadSecret))
    );
    assert_eq!(svc.score_store().leaderboard().score("g", "p"), Some(10));
    assert_eq!(svc.list_games(), vec!["g".to_string()]);
}

#[test]
fn put_score_without_a_configured_secret_changes_nothing() {
    let mut svc = service();
    svc.put_score(Some("s"), Some("s"), "g", "p", 10, None).unwrap();
    assert_eq!(
        svc.put_score(Some("s"), None, "g", "p", 99, None),
        Err(SubmitError::SecretMissing)
    );
    assert_eq!(
        svc.put_score(None, None, "g", "p", 99, None),
        Err(SubmitError::Login(LoginError::NoSecret))
    );
    assert_eq!(svc.score_store().leaderboard().score("g", "p"), Some(10));
}

#[test]
fn a_saved_put_hands_out_the_score_and_the_bytes_to_write() {
    let mut svc = service();
    let (score, bytes) =
        svc.put_score_saved(Some("s"), Some("s"), "g", "p", 10, None).unwrap();
    assert_eq!(score, 10);
    let (score, bytes_after) =
        svc.put_score_saved(Some("s"), Some("s"), "g", "p", 5, Some(true)).unwrap();
    assert_eq!(score, 15);
    assert_eq!(load(Some(&bytes)).ok().unwrap().score("g", "p"), Some(10));
    let restarted = load(Some(&bytes_after)).ok().unwrap();
    assert!(restarted.same_as(svc.score_store().leaderboard()));
    assert_eq!(restarted.score("g", "p"), Some(15));
}

#[test]
fn a_saved_put_that_is_refused_changes_nothing() {
    let mut svc = service();
    svc.put_score_saved(Some("s"), Some("s"), "g", "p", u64::MAX, None).unwrap();
    assert_eq!(
        svc.put_score_saved(None, Some("s"), "g", "p", 1, None),
        Err(SubmitError::Login(LoginError::NoSecret))
    );
    assert_eq!(
        svc.put_score_saved(Some("t"), Some("s"), "g", "p", 1, None),
        Err(SubmitError::Login(LoginError::BadSecret))
    );
    assert_eq!(
        svc.put_score_saved(Some(""), Some("s  t"), "g", "p", 1, None),
        Err(SubmitError::Login(LoginError::BadSecret))
    );
    assert_eq!(
        svc.put_score_saved(Some("s"), None, "g", "p", 1, None),
        Err(SubmitError::SecretMissing)
    );
    assert_eq!(
        svc.put_score_saved(Some("s"), Some("s"), "g", "p", 1, Some(true)),
        Err(SubmitError::OutOfRange)
    );
    assert_eq!(svc.score_store().leaderboard().score("g", "p"), Some(u64::MAX));
    assert_eq!(svc.list_games(), vec!["g".to_string()]);
}

#[test]
fn a_saved_put_that_cannot_be_saved_changes_nothing() {
    let mut svc = service();
    svc.put_score_saved(Some("s"), Some("s"), "g", "p", 10, None).unwrap();
    assert_eq!(
        svc.put_score_saved(Some("s"), Some("s"), "g", "nul\0", 1, None),
        Err(SubmitError::SaveFailed)
    );
    assert_eq!(
        svc.put_score_saved(Some("s"), Some("s"), "nul\0", "p", 1, Some(true)),
        Err(SubmitError::SaveFailed)
    );
    assert_eq!(svc.score_store().leaderboard().score("g", "nul\0"), None);
    assert_eq!(svc.list_games(), vec!["g".to_string()]);
    assert_eq!(svc.get_ranked_scores("g", None), (vec![("p".to_string(), 10)], false));
    assert_eq!(
        svc.put_score(Some("s"), Some("s"), "g", "nul\0", 1, None),
        Ok(1)
    );
}

#[test]
fn writers_in_any_order_leave_the_sum() {
    let calls: [(&str, &str, u64); 6] =
        [("g", "p", 1), ("g", "q", 7), ("g", "p", 1), ("h", "p", 3), ("g", "p", 1), ("g", "q", 2)];
    let mut forward = service();
    for (game, player, value) in calls.iter() {
        forward.put_score(Some("s"), Some("s"), game, player, *value, Some(true)).unwrap();
    }
    let mut backward = service();
    for (game, player, value) in calls.iter().rev() {
        backward.put_score(Some("s"), Some("s"), game, player, *value, Some(true)).unwrap();
    }
    for svc in [&forward, &backward] {
        assert_eq!(svc.score_store().leaderboard().score("g", "p"), Some(3));
        assert_eq!(svc.score_store().leaderboard().score("g", "q"), Some(9));
        assert_eq!(svc.score_store().leaderboard().score("h", "p"), Some(3));
    }
    assert!(forward.score_store().leaderboard().same_as(backward.score_store().leaderboard()));
}
