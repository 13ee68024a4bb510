use soccer::Game;
use soccer::Status;
use soccer::fuzzy::fuz;

fn game(home: &str, away: &str) -> Game {
    Game {
        home: home.to_string(),
        away: away.to_string(),
        score_home: 0,
        score_away: 0,
        timestamp: 0,
        status: Status::Upcoming,
        link: String::new(),
    }
}

#[test]
fn gap_bounded_match_rejects_wide_gaps() {
    // "brta": after matching "b" and "r", no "t" follows within three
    // characters anywhere in the name.
    let games = vec![game("Bayern Munich", "VfB Stuttgart")];
    let r = fuz("brta".to_string(), games);
    assert_eq!(r.len(), 0);
}

#[test]
fn gap_bounded_match_accepts_small_gaps() {
    // "dotmu" threads through "dortmund" with a one-character gap.
    let games = vec![game("Borussia Dortmund", "1. FC Heidenheim")];
    let r = fuz("dotmu".to_string(), games);
    assert_eq!(r.len(), 1);
    assert_eq!(r[0].home, "Borussia Dortmund");
}

#[test]
fn matches_away_name_too() {
    let games = vec![game("SC Freiburg", "Borussia Dortmund")];
    let r = fuz("dortm".to_string(), games);
    assert_eq!(r.len(), 1);
}

#[test]
fn case_insensitive_query() {
    let games = vec![game("fcb köln", "VfL Bochum")];
    let r = fuz("FCB".to_string(), games);
    assert_eq!(r.len(), 1);
}

#[test]
fn case_insensitive_name() {
    let games = vec![game("FCB Köln", "VfL Bochum")];
    let r = fuz("fcb".to_string(), games);
    assert_eq!(r.len(), 1);
}

#[test]
fn empty_query_matches_all_in_order() {
    let games = vec![
        game("Bayern Munich", "SC Freiburg"),
        game("Borussia Dortmund", "VfL Bochum"),
        game("Werder Bremen", "FC St. Pauli"),
    ];
    let expected = vec![
        game("Bayern Munich", "SC Freiburg"),
        game("Borussia Dortmund", "VfL Bochum"),
        game("Werder Bremen", "FC St. Pauli"),
    ];
    let r = fuz("".to_string(), games);
    assert_eq!(r, expected);
}

#[test]
fn keeps_original_relative_order() {
    let games = vec![
        game("Borussia Dortmund", "SC Freiburg"),
        game("Bayern Munich", "VfL Bochum"),
        game("Borussia Mönchengladbach", "FC St. Pauli"),
    ];
    let r = fuz("borus".to_string(), games);
    assert_eq!(r.len(), 2);
    assert_eq!(r[0].home, "Borussia Dortmund");
    assert_eq!(r[1].home, "Borussia Mönchengladbach");
}

#[test]
fn no_match_yields_empty_not_error() {
    let games = vec![game("Bayern Munich", "SC Freiburg")];
    let r = fuz("zzz".to_string(), games);
    assert_eq!(r.len(), 0);
}
