//! The post-race score tracker: reads the player's running points off the
//! scoreboard shown after a race.
use crate::frame::{
    binarize_scoreboard, crop_fits, lemma_scoreboard_rows_shape,
    scoreboard_rows, CropRect, Frame,
};
use crate::ocr::{opt_view, present_lines, texts_of_lines, OcrDetector};
use ocrs::TextLine;
use crate::pattern::{regex_group1, TextPattern};
use crate::state::{points_transition, AppState};
use crate::text::{
    contains_text, has_substring, joined_lines, lemma_split_joined_lines, no_line_feeds, lowercase_of, parse_u32, parsed_u32, split_lines, split_on,
    string_views, to_lowercase,
};
use vstd::prelude::*;

verus! {

/// The points that a lowercased scoreboard line gives the player, given
/// group 1 of the trailing-score pattern in it: the line must name the
/// player (lowercased alias) and end in a number that fits `u32`.
pub open spec fn score_line(lower: Seq<char>, alias_lower: Seq<char>, group: Option<Seq<char>>) -> Option<u32> {
    if has_substring(lower, alias_lower) {
        match group {
            Some(g) => parsed_u32(g),
            None => None,
        }
    } else {
        None
    }
}

/// The points read from each line, in order, that gives the player points;
/// each line lowercased and matched against `pattern`.
pub open spec fn score_points(lines: Seq<Seq<char>>, alias_lower: Seq<char>, pattern: Seq<char>) -> Seq<u32>
    decreases lines.len(),
{
    if lines.len() == 0 {
        Seq::<u32>::empty()
    } else {
        let rest = score_points(lines.drop_last(), alias_lower, pattern);
        let lower = lowercase_of(lines.last());
        match score_line(lower, alias_lower, regex_group1(pattern, lower)) {
            Some(p) => rest.push(p),
            None => rest,
        }
    }
}

/// The points that a lowercased scoreboard line gives the player, given
/// group 1 of the trailing-score pattern in it.
pub fn line_points(lower: &str, alias_lower: &str, group: Option<String>) -> (points: Option<u32>)
    ensures
        points == score_line(lower@, alias_lower@, opt_view(group)),
{
    if contains_text(lower, alias_lower) {
        match group {
            Some(g) => parse_u32(g.as_str()),
            None => None,
        }
    } else {
        None
    }
}

/// The player's points on each line of a recognised scoreboard text that
/// names the player and ends in a number, in the order of the lines.
pub fn scoreboard_points(text: &str, player_alias: &str, pattern: &TextPattern) -> (points: Vec<u32>)
    ensures
        points@ == score_points(split_on(text@, '\n'), lowercase_of(player_alias@), pattern@),
{
    let lines = split_lines(text);
    let alias_lower = to_lowercase(player_alias);
    let ghost all = string_views(lines@);
    let mut points: Vec<u32> = Vec::new();
    let n = lines.len();
    let mut i: usize = 0;
    assert(all.take(0) =~= Seq::<Seq<char>>::empty());
    while i < n
        invariant
            n == lines.len(),
            all == string_views(lines@),
            i <= n,
            alias_lower@ == lowercase_of(player_alias@),
            points@ == score_points(all.take(i as int), alias_lower@, pattern@),
        decreases n - i,
    {
        let lower = to_lowercase(lines[i].as_str());
        let ghost pre = all.take(i + 1);
        assert(pre.drop_last() =~= all.take(i as int));
        assert(pre.last() == lines@[i as int]@);
        let group = pattern.group1(lower.as_str());
        match line_points(lower.as_str(), alias_lower.as_str(), group) {
            Some(p) => { points.push(p); },
            None => {},
        }
        i = i + 1;
    }
    assert(all.take(n as int) =~= all);
    points
}

/// Reads the player's points off a post-race scoreboard frame: crops the
/// scoreboard region `rect`, marks bright pixels black and the rest white,
/// recognises the text, and reads every line that names the player.
pub fn process_scoreboard(
    detector: &OcrDetector,
    frame: &Frame,
    rect: &CropRect,
    player_alias: &str,
    pattern: &TextPattern,
) -> (points: Vec<u32>)
    requires
        frame.wf(),
        crop_fits(frame, rect),
    ensures
        points@.len() == 0 || exists|rec: Seq<Option<TextLine>>, texts: Seq<Option<String>>|
            #[trigger] texts_of_lines(rec, texts) && points@ == score_points(
                split_on(joined_lines(present_lines(texts)), '\n'),
                lowercase_of(player_alias@),
                pattern@,
            ),
        (rect.x_end - rect.x_start) * (rect.y_end - rect.y_start) == 0 ==> points@.len() == 0,
{
    let (crop_w, crop_h, pixels) = binarize_scoreboard(frame, rect);
    assert(crop_w * crop_h <= u32::MAX) by (nonlinear_arith)
        requires
            crop_w * crop_h * 4 <= u32::MAX,
    ;
    proof {
        lemma_scoreboard_rows_shape(
            frame.pixels@,
            frame.width as int,
            rect.x_start as int,
            rect.x_end as int,
            rect.y_start as int,
            rect.y_end as int,
        );
    }
    let text = read_scoreboard_text(detector, crop_w, crop_h, pixels.as_slice());
    points_from_text(text, player_alias, pattern)
}

/// Recognises the raw text of a whole RGBA image of the scoreboard:
/// `pixels` are exactly `width` by `height` pixels of four bytes.
fn read_scoreboard_text(detector: &OcrDetector, width: u32, height: u32, pixels: &[u8]) -> (text: Option<String>)
    requires
        width * height <= u32::MAX,
        pixels@.len() == width * height * 4,
    ensures
        width * height == 0 ==> text is None,
        text matches Some(t) ==> exists|rec: Seq<Option<TextLine>>, texts: Seq<Option<String>>|
            #[trigger] texts_of_lines(rec, texts) && t@ == joined_lines(present_lines(texts)),
{
    detector.extract_raw_text(width, height, pixels)
}

/// The player's points that the outcome of a scoreboard recognition gives:
/// none where it failed, else those of every line of its raw text that names
/// the player.
pub open spec fn points_of_reading(lines: Option<Seq<Seq<char>>>, alias_lower: Seq<char>, pattern: Seq<char>) -> Seq<u32> {
    match lines {
        Some(ls) => score_points(split_on(joined_lines(ls), '\n'), alias_lower, pattern),
        None => Seq::<u32>::empty(),
    }
}

/// The player's points in the recognised text of a scoreboard: none where no
/// text was recognised, else those of every line that names the player.
pub fn points_from_text(text: Option<String>, player_alias: &str, pattern: &TextPattern) -> (points: Vec<u32>)
    ensures
        match text {
            None => points@.len() == 0,
            Some(t) => points@ == score_points(split_on(t@, '\n'), lowercase_of(player_alias@), pattern@),
        },
{
    match text {
        Some(t) => scoreboard_points(t.as_str(), player_alias, pattern),
        None => Vec::new(),
    }
}

/// The state after a run of points readings, applied in order.
pub open spec fn points_applied(s: AppState, points: Seq<u32>) -> AppState
    decreases points.len(),
{
    if points.len() == 0 {
        s
    } else {
        points_transition(points_applied(s, points.drop_last()), points.last()).0
    }
}

/// How many of a run of points readings, applied in order, change the state.
pub open spec fn points_changes(s: AppState, points: Seq<u32>) -> nat
    decreases points.len(),
{
    if points.len() == 0 {
        0
    } else {
        points_changes(s, points.drop_last()) + if points_transition(
            points_applied(s, points.drop_last()),
            points.last(),
        ).1 {
            1nat
        } else {
            0nat
        }
    }
}

/// Applies the points read off a scoreboard to the shared state, in order;
/// gives how many of them changed it.
pub fn apply_points(state: &mut AppState, points: &Vec<u32>) -> (changes: usize)
    ensures
        *final(state) == points_applied(*old(state), points@),
        changes == points_changes(*old(state), points@),
{
    let n = points.len();
    let mut changes: usize = 0;
    let mut i: usize = 0;
    assert(points@.take(0) =~= Seq::<u32>::empty());
    while i < n
        invariant
            n == points.len(),
            i <= n,
            changes <= i,
            changes == points_changes(*old(state), points@.take(i as int)),
            *state == points_applied(*old(state), points@.take(i as int)),
        decreases n - i,
    {
        let changed = state.try_update_points(points[i]);
        if changed {
            changes = changes + 1;
        }
        assert(points@.take(i + 1).drop_last() =~= points@.take(i as int));
        i = i + 1;
    }
    assert(points@.take(n as int) =~= points@);
    changes
}

/// After a run of points readings the current points are the last reading
/// (the state is unchanged by an empty run); the race and its cooldown are
/// never touched.
pub proof fn lemma_points_applied_last(s: AppState, points: Seq<u32>)
    ensures
        points.len() > 0 ==> points_applied(s, points).state.current_points == Some(points.last()),
        points.len() == 0 ==> points_applied(s, points) == s,
        points_applied(s, points).state.current_race == s.state.current_race,
        points_applied(s, points).last_detected_time == s.last_detected_time,
    decreases points.len(),
{
    if points.len() > 0 {
        lemma_points_applied_last(s, points.drop_last());
    }
}

/// Reading scores is case-insensitive in the lines: lines that lowercase
/// alike give the same points.
pub proof fn lemma_score_points_case_insensitive(
    a: Seq<Seq<char>>,
    b: Seq<Seq<char>>,
    alias_lower: Seq<char>,
    pattern: Seq<char>,
)
    requires
        a.len() == b.len(),
        forall|i: int| 0 <= i < a.len() ==> lowercase_of(#[trigger] a[i]) == lowercase_of(b[i]),
    ensures
        score_points(a, alias_lower, pattern) == score_points(b, alias_lower, pattern),
    decreases a.len(),
{
    if a.len() > 0 {
        let a0 = a.drop_last();
        let b0 = b.drop_last();
        assert forall|i: int| 0 <= i < a0.len() implies lowercase_of(#[trigger] a0[i]) == lowercase_of(b0[i]) by {
            assert(a0[i] == a[i] && b0[i] == b[i]);
        }
        assert(lowercase_of(a[a.len() - 1]) == lowercase_of(b[b.len() - 1]));
        lemma_score_points_case_insensitive(a0, b0, alias_lower, pattern);
    }
}

/// Every line that gives the player points contributes them: the points
/// read from a list of lines hold the points of each such line.
pub proof fn lemma_score_points_keep_player_lines(
    lines: Seq<Seq<char>>,
    alias_lower: Seq<char>,
    pattern: Seq<char>,
    i: int,
    p: u32,
)
    requires
        0 <= i < lines.len(),
        score_line(
            lowercase_of(lines[i]),
            alias_lower,
            regex_group1(pattern, lowercase_of(lines[i])),
        ) == Some(p),
    ensures
        score_points(lines, alias_lower, pattern).contains(p),
    decreases lines.len(),
{
    let rest = score_points(lines.drop_last(), alias_lower, pattern);
    if i == lines.len() - 1 {
        assert(score_points(lines, alias_lower, pattern) == rest.push(p));
        assert(rest.push(p)[rest.len() as int] == p);
    } else {
        assert(lines.drop_last()[i] == lines[i]);
        lemma_score_points_keep_player_lines(lines.drop_last(), alias_lower, pattern, i, p);
        let j = choose|j: int| 0 <= j < rest.len() && rest[j] == p;
        let full = score_points(lines, alias_lower, pattern);
        assert(full == rest || full == rest.push(full.last()));
        if full != rest {
            assert(full[j] == p);
        }
    }
}

/// The points read off a recognised scoreboard hold the points of every
/// recognised line that names the player and ends in a number (lines hold
/// no line feed of their own).
pub proof fn lemma_points_of_reading_keep_player_lines(
    lines: Seq<Seq<char>>,
    alias_lower: Seq<char>,
    pattern: Seq<char>,
    i: int,
    p: u32,
)
    requires
        no_line_feeds(lines),
        0 <= i < lines.len(),
        score_line(
            lowercase_of(lines[i]),
            alias_lower,
            regex_group1(pattern, lowercase_of(lines[i])),
        ) == Some(p),
    ensures
        points_of_reading(Some(lines), alias_lower, pattern).contains(p),
{
    lemma_split_joined_lines(lines);
    let pieces = lines.push(Seq::<char>::empty());
    assert(pieces[i] == lines[i]);
    lemma_score_points_keep_player_lines(pieces, alias_lower, pattern, i, p);
}

/// A scoreboard line gives the player points only if it names the player;
/// then it gives the number its trailing-score group reads as, if any.
pub proof fn lemma_score_line_laws(lower: Seq<char>, alias_lower: Seq<char>, g: Seq<char>)
    ensures
        !has_substring(lower, alias_lower) ==> score_line(lower, alias_lower, Some(g)) is None,
        has_substring(lower, alias_lower) ==> score_line(lower, alias_lower, Some(g)) == parsed_u32(g),
        score_line(lower, alias_lower, None) is None,
{
}

} // verus!
