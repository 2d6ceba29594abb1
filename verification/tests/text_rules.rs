use mkworld_tracker::text::{chars_of, contains_text, join_lines, parse_u32, split_lines};

#[test]
fn chars_in_order() {
    assert_eq!(chars_of("aé1"), vec!['a', 'é', '1']);
}

#[test]
fn substring_search() {
    assert!(contains_text("3rd race", "race"));
    assert!(contains_text("abc", ""));
    assert!(!contains_text("", "a"));
    assert!(!contains_text("rac", "race"));
    assert!(contains_text("xxfinal", "final"));
    assert!(!contains_text("fina l", "final"));
}

#[test]
fn split_like_std() {
    for text in ["", "a", "a\nb", "a\n", "\n\n", "x\n\ny\n"] {
        let expected: Vec<String> = text.split('\n').map(|s| s.to_string()).collect();
        assert_eq!(split_lines(text), expected);
    }
}

#[test]
fn join_then_split_gives_lines_back() {
    let lines = vec!["Player 12".to_string(), "".to_string(), "Rival 9".to_string()];
    let text = join_lines(&lines);
    assert_eq!(text, "Player 12\n\nRival 9\n");
    let back = split_lines(&text);
    assert_eq!(back, vec!["Player 12", "", "Rival 9", ""]);
}

#[test]
fn join_no_lines_is_empty() {
    assert_eq!(join_lines(&Vec::new()), "");
}

#[test]
fn parse_like_std() {
    for s in ["0", "7", "+7", "154", "007", "4294967295", "4294967296", "", "+", "-1", "12a", " 12", "٣", "99999999999999999999"] {
        assert_eq!(parse_u32(s), s.parse::<u32>().ok(), "input {:?}", s);
    }
}
