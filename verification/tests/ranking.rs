use leaderboard::auth::authenticate;
use leaderboard::board::{Leaderboard, Mode};
use leaderboard::ranking::rank;
use leaderboard::scores::PlayerScores;
use leaderboard::service::{LeaderboardService, DEFAULT_LIMIT};
use leaderboard::store::ScoreStore;

fn pair(name: &str, score: u64) -> (String, u64) {
    (name.to_string(), score)
}

fn service_with(game: &str, scores: &[(&str, u64)]) -> LeaderboardService {
    let permit = authenticate(Some("s"), "s").unwrap();
    let mut svc = LeaderboardService::new(ScoreStore::new(Leaderboard::new()));
    for (player, score) in scores {
        svc.submit_score(&permit, game, player, *score, Mode::Overwrite);
    }
    svc
}

#[test]
fn a_missing_game_has_an_empty_ranking() {
    let svc = service_with("g", &[("a", 1)]);
    assert_eq!(svc.get_ranked_scores("nope", Some(10)), (vec![], false));
    assert_eq!(svc.get_ranked_scores("nope", None), (vec![], false));
    assert_eq!(svc.get_ranked_scores("nope", Some(0)), (vec![], false));
}

#[test]
fn a_missing_game_has_an_empty_board() {
    let svc = service_with("g", &[("a", 1)]);
    assert_eq!(svc.get_board("nope", None), vec![]);
    assert_eq!(svc.get_board("nope", Some(3)), vec![]);
}

#[test]
fn the_ranking_is_cut_to_the_limit() {
    let svc = service_with("g", &[("a", 50), ("b", 15), ("c", 90)]);
    assert_eq!(
        svc.get_ranked_scores("g", Some(2)),
        (vec![pair("c", 90), pair("a", 50)], true)
    );
}

#[test]
fn the_ranking_holds_all_players_under_a_wide_limit() {
    let svc = service_with("g", &[("a", 50), ("b", 15), ("c", 90)]);
    assert_eq!(
        svc.get_ranked_scores("g", Some(10)),
        (vec![pair("c", 90), pair("a", 50), pair("b", 15)], false)
    );
}

#[test]
fn a_limit_equal_to_the_number_of_players_leaves_no_more() {
    let svc = service_with("g", &[("a", 50), ("b", 15), ("c", 90)]);
    assert_eq!(
        svc.get_ranked_scores("g", Some(3)),
        (vec![pair("c", 90), pair("a", 50), pair("b", 15)], false)
    );
}

#[test]
fn a_limit_of_zero_gives_no_rows_but_says_there_are_more() {
    let svc = service_with("g", &[("a", 50), ("b", 15)]);
    assert_eq!(svc.get_ranked_scores("g", Some(0)), (vec![], true));
}

#[test]
fn the_limit_defaults_to_ten() {
    assert_eq!(DEFAULT_LIMIT, 10);
    let names = ["a", "b", "c", "d", "e", "f", "g", "h", "i", "j", "k"];
    let eleven: Vec<(&str, u64)> = names.iter().enumerate().map(|(i, n)| (*n, i as u64)).collect();
    let svc = service_with("g", &eleven);
    let (rows, more) = svc.get_ranked_scores("g", None);
    assert_eq!(rows.len(), 10);
    assert!(more);
    assert_eq!(rows[0], pair("k", 10));
    assert_eq!(rows[9], pair("b", 1));
    let svc = service_with("g", &eleven[..10]);
    let (rows, more) = svc.get_ranked_scores("g", None);
    assert_eq!(rows.len(), 10);
    assert!(!more);
}

#[test]
fn rank_without_limit_gives_the_whole_ranking() {
    let mut scores = PlayerScores::new();
    for (i, name) in ["a", "b", "c", "d", "e", "f", "g", "h", "i", "j", "k", "l"].iter().enumerate() {
        scores.set(name, (i as u64 * 7) % 12);
    }
    let (rows, more) = rank(&scores, None);
    assert!(!more);
    assert_eq!(rows.len(), 12);
    let got: Vec<u64> = rows.iter().map(|r| r.1).collect();
    assert_eq!(got, vec![11, 10, 9, 8, 7, 6, 5, 4, 3, 2, 1, 0]);
    assert_eq!(rows[0], pair("f", 11));
    assert_eq!(rows[11], pair("a", 0));
}

#[test]
fn rank_of_no_players_is_empty() {
    let scores = PlayerScores::new();
    assert_eq!(rank(&scores, None), (vec![], false));
    assert_eq!(rank(&scores, Some(0)), (vec![], false));
    assert_eq!(rank(&scores, Some(5)), (vec![], false));
}

#[test]
fn rank_of_one_player() {
    let mut scores = PlayerScores::new();
    scores.set("solo", 3);
    assert_eq!(rank(&scores, Some(1)), (vec![pair("solo", 3)], false));
    assert_eq!(rank(&scores, Some(0)), (vec![], true));
    assert_eq!(rank(&scores, Some(usize::MAX)), (vec![pair("solo", 3)], false));
}

#[test]
fn equal_scores_are_all_listed_in_some_order() {
    let svc = service_with("g", &[("a", 5), ("b", 9), ("c", 5), ("d", 5), ("e", 1)]);
    let (rows, more) = svc.get_ranked_scores("g", Some(10));
    assert!(!more);
    assert_eq!(rows.len(), 5);
    assert_eq!(rows[0], pair("b", 9));
    assert_eq!(rows[4], pair("e", 1));
    let mut tied: Vec<String> = rows[1..4].iter().map(|r| r.0.clone()).collect();
    tied.sort();
    assert_eq!(tied, vec!["a".to_string(), "c".to_string(), "d".to_string()]);
    assert!(rows[1..4].iter().all(|r| r.1 == 5));
    let (rows, more) = svc.get_ranked_scores("g", Some(2));
    assert!(more);
    assert_eq!(rows.len(), 2);
    assert_eq!(rows[0], pair("b", 9));
    assert_eq!(rows[1].1, 5);
}

#[test]
fn a_large_game_is_ranked_by_falling_score() {
    let mut scores = PlayerScores::new();
    let mut seed: u64 = 12345;
    for i in 0..500 {
        seed = seed.wrapping_mul(6364136223846793005).wrapping_add(1442695040888963407);
        scores.set(&format!("player{}", i), seed >> 40);
    }
    let (rows, more) = rank(&scores, None);
    assert!(!more);
    assert_eq!(rows.len(), 500);
    assert!(rows.windows(2).all(|w| w[0].1 >= w[1].1));
    let mut names: Vec<&str> = rows.iter().map(|r| r.0.as_str()).collect();
    names.sort();
    names.dedup();
    assert_eq!(names.len(), 500);
    assert!(rows.iter().all(|r| scores.get(&r.0) == Some(r.1)));
    let (top, more) = rank(&scores, Some(20));
    assert!(more);
    assert_eq!(top.len(), 20);
    assert!(top.iter().zip(rows.iter()).all(|(a, b)| a.1 == b.1));
}

#[test]
fn the_board_without_limit_holds_every_player_once() {
    let svc = service_with("g", &[("a", 50), ("b", 15), ("c", 90)]);
    let mut board = svc.get_board("g", None);
    board.sort();
    assert_eq!(board, vec![pair("a", 50), pair("b", 15), pair("c", 90)]);
}

#[test]
fn the_board_with_limit_is_the_ranking_cut_to_it() {
    let svc = service_with("g", &[("a", 50), ("b", 15), ("c", 90)]);
    assert_eq!(svc.get_board("g", Some(2)), vec![pair("c", 90), pair("a", 50)]);
    assert_eq!(svc.get_board("g", Some(0)), vec![]);
    assert_eq!(
        svc.get_board("g", Some(7)),
        vec![pair("c", 90), pair("a", 50), pair("b", 15)]
    );
}

#[test]
fn the_ranking_follows_later_submissions() {
    let permit = authenticate(Some("s"), "s").unwrap();
    let mut svc = service_with("g", &[("a", 50), ("b", 15), ("c", 90)]);
    svc.submit_score(&permit, "g", "b", 80, Mode::Increment);
    assert_eq!(
        svc.get_ranked_scores("g", Some(2)),
        (vec![pair("b", 95), pair("c", 90)], true)
    );
}

#[test]
fn games_are_listed_once_each() {
    let permit = authenticate(Some("s"), "s").unwrap();
    let mut svc = LeaderboardService::new(ScoreStore::new(Leaderboard::new()));
    assert_eq!(svc.list_games(), Vec::<String>::new());
    svc.submit_score(&permit, "chess", "a", 1, Mode::Overwrite);
    svc.submit_score(&permit, "go", "a", 1, Mode::Overwrite);
    svc.submit_score(&permit, "chess", "b", 1, Mode::Increment);
    let mut games = svc.list_games();
    games.sort();
    assert_eq!(games, vec!["chess".to_string(), "go".to_string()]);
}
