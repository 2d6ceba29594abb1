use mkworld_tracker::agents::post_race_score::{apply_points, line_points, points_from_text, scoreboard_points};
use mkworld_tracker::ocr::{
    is_final_race_banner, lines_from_recognition, race_from_line, race_number_from_lines, recognized_lines,
    LoadedModel,
};
use mkworld_tracker::pattern::{TextPattern, RACE_BANNER_PATTERN, TRAILING_SCORE_PATTERN};
use mkworld_tracker::state::AppState;

fn banner() -> TextPattern {
    TextPattern::new(RACE_BANNER_PATTERN).unwrap()
}

fn score() -> TextPattern {
    TextPattern::new(TRAILING_SCORE_PATTERN).unwrap()
}

fn lines(v: &[&str]) -> Vec<String> {
    v.iter().map(|s| s.to_string()).collect()
}

#[test]
fn pattern_keeps_source() {
    assert_eq!(banner().as_str(), RACE_BANNER_PATTERN);
}

#[test]
fn invalid_pattern_is_refused() {
    assert!(TextPattern::new("(unclosed").is_err());
}

#[test]
fn banner_with_ordinal_is_read() {
    assert_eq!(race_number_from_lines(&lines(&["3rd Race"]), &banner()), Some(3));
    assert_eq!(race_number_from_lines(&lines(&["noise", "11TH RACE"]), &banner()), Some(11));
}

#[test]
fn banner_with_spaces_is_read() {
    assert_eq!(race_number_from_lines(&lines(&["2 nd  race"]), &banner()), Some(2));
}

#[test]
fn final_race_is_twelve() {
    assert_eq!(race_number_from_lines(&lines(&["Final Race"]), &banner()), Some(12));
    assert_eq!(race_number_from_lines(&lines(&["FINAL RAC"]), &banner()), Some(12));
    assert!(is_final_race_banner("the final race"));
    assert!(!is_final_race_banner("final lap"));
}

#[test]
fn out_of_range_banner_is_skipped() {
    assert_eq!(race_number_from_lines(&lines(&["13th race", "5th race"]), &banner()), Some(5));
    assert_eq!(race_number_from_lines(&lines(&["0th race"]), &banner()), None);
    assert_eq!(race_number_from_lines(&lines(&["race"]), &banner()), None);
    assert_eq!(race_number_from_lines(&Vec::new(), &banner()), None);
}

#[test]
fn first_naming_line_wins() {
    assert_eq!(race_number_from_lines(&lines(&["4th race", "final race"]), &banner()), Some(4));
}

#[test]
fn race_from_line_uses_the_group() {
    assert_eq!(race_from_line("whatever", Some("9".to_string())), Some(9));
    assert_eq!(race_from_line("whatever", Some("13".to_string())), None);
    assert_eq!(race_from_line("whatever", None), None);
    assert_eq!(race_from_line("final race", None), Some(12));
}

#[test]
fn trailing_score_of_player_line() {
    let text = "RunnerXxX    154\nPlayer   87\nOther 12\n";
    assert_eq!(scoreboard_points(text, "player", &score()), vec![87]);
    assert_eq!(scoreboard_points(text, "RunnerXxX", &score()), vec![154]);
}

#[test]
fn player_alias_is_case_insensitive() {
    assert_eq!(scoreboard_points("PLAYER 45", "Player", &score()), vec![45]);
}

#[test]
fn line_without_trailing_number_gives_nothing() {
    assert_eq!(scoreboard_points("Player 45 pts\nPlayer", "player", &score()), Vec::<u32>::new());
    assert_eq!(scoreboard_points("Player1234", "player", &score()), Vec::<u32>::new());
}

#[test]
fn every_matching_line_counts_in_order() {
    assert_eq!(scoreboard_points("player 10\nplayer 20", "player", &score()), vec![10, 20]);
}

#[test]
fn line_points_needs_alias() {
    assert_eq!(line_points("rival 30", "player", Some("30".to_string())), None);
    assert_eq!(line_points("player 30", "player", Some("30".to_string())), Some(30));
    assert_eq!(line_points("player 30", "player", None), None);
}

#[test]
fn applied_points_end_with_the_last_reading() {
    let mut s = AppState::new();
    let changes = apply_points(&mut s, &vec![10, 10, 20]);
    assert_eq!(changes, 2);
    assert_eq!(s.state.current_points, Some(20));
    assert_eq!(s.state.current_race, 1);
    assert_eq!(apply_points(&mut s, &Vec::new()), 0);
    assert_eq!(s.state.current_points, Some(20));
}

#[test]
fn recognized_lines_keep_read_lines_in_order() {
    let texts = vec![None, Some("1st race".to_string()), None, Some("b".to_string()), Some("".to_string())];
    assert_eq!(recognized_lines(texts), vec!["1st race".to_string(), "b".to_string(), "".to_string()]);
    assert_eq!(recognized_lines(vec![None, None]), Vec::<String>::new());
}

#[test]
fn model_bytes_that_are_no_model_are_refused() {
    assert!(LoadedModel::load(vec![0, 1, 2, 3, 4, 5, 6, 7]).is_err());
}

fn text_line(text: &str) -> ocrs::TextLine {
    ocrs::TextLine::new(
        text.chars()
            .map(|c| ocrs::TextChar { char: c, rect: rten_imageproc::Rect::from_tlbr(0, 0, 1, 1) })
            .collect(),
    )
}

#[test]
fn recognition_outcome_to_lines() {
    let rec = Ok(vec![Some(text_line("3rd Race")), None, Some(text_line("x"))]);
    assert_eq!(lines_from_recognition(rec), Some(vec!["3rd Race".to_string(), "x".to_string()]));
    assert_eq!(lines_from_recognition(Err(anyhow::Error::msg("no model"))), None);
}

#[test]
fn no_text_gives_no_points() {
    assert_eq!(points_from_text(None, "player", &score()), Vec::<u32>::new());
    assert_eq!(points_from_text(Some("Player 33".to_string()), "player", &score()), vec![33]);
}

#[test]
fn race_reading_ignores_ascii_case() {
    assert_eq!(race_number_from_lines(&lines(&["nOiSe", "4Th RaCe"]), &banner()), Some(4));
    assert_eq!(race_number_from_lines(&lines(&["FINAL RACE"]), &banner()), Some(12));
}
