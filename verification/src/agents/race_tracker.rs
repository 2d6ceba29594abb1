//! The race tracker: reads the race banner in the bottom third of a frame
//! and moves the shared state to the race it names.
use crate::frame::{binarize_bottom_third, bottom_third_fits, bottom_third_row, Frame};
use crate::ocr::{first_race, present_lines, texts_of_lines, OcrDetector};
use ocrs::TextLine;
use crate::pattern::RACE_BANNER_PATTERN;
use crate::state::AppState;
use vstd::prelude::*;

verus! {

/// Where the bottom-third crop fits `u32`, so does its pixel count.
proof fn lemma_bottom_third_area_fits(frame: &Frame)
    requires
        bottom_third_fits(frame),
    ensures
        frame.width * (frame.height - bottom_third_row(frame.height)) <= u32::MAX,
{
    let w = frame.width as int;
    let h = frame.height as int;
    let row = bottom_third_row(frame.height);
    assert(row == (h * 2) / 3);
    if h <= 1 {
        assert(row == 0);
        assert(w * (h - row) <= w) by (nonlinear_arith)
            requires
                0 <= w,
                0 <= h - row <= 1,
        ;
    } else {
        assert(1 <= h - row <= row);
        assert(w * (h - row) <= w * row * 4) by (nonlinear_arith)
            requires
                0 <= w,
                1 <= h - row <= row,
        ;
    }
}

/// Reads the race number off a whole RGBA image of the banner: `pixels`
/// are exactly `width` by `height` pixels of four bytes.
fn read_banner(detector: &OcrDetector, width: u32, height: u32, pixels: &[u8]) -> (race: Option<u32>)
    requires
        width * height <= u32::MAX,
        pixels@.len() == width * height * 4,
    ensures
        race matches Some(n) ==> 1 <= n <= 12,
        exists|rec: Seq<Option<TextLine>>, texts: Seq<Option<String>>|
            #[trigger] texts_of_lines(rec, texts)
            && race == first_race(present_lines(texts), RACE_BANNER_PATTERN@),
{
    detector.parse_race_number(width, height, pixels)
}

/// Reads the race number (1 to 12) off the banner in the bottom third of a
/// frame, after turning its bright text black and the rest white.
pub fn process_frame(detector: &OcrDetector, frame: &Frame) -> (race: Option<u32>)
    requires
        frame.wf(),
        bottom_third_fits(frame),
    ensures
        race matches Some(n) ==> 1 <= n <= 12,
        bottom_third_row(frame.height) * frame.width * 4 >= frame.pixels@.len() ==> race is None,
        exists|rec: Seq<Option<TextLine>>, texts: Seq<Option<String>>|
            #[trigger] texts_of_lines(rec, texts)
            && race == first_race(present_lines(texts), RACE_BANNER_PATTERN@),
{
    proof { lemma_bottom_third_area_fits(frame); }
    match binarize_bottom_third(frame) {
        Some((cropped_height, pixels)) => {
            proof {
                let w = frame.width as int;
                let h = frame.height as int;
                let row = bottom_third_row(frame.height);
                let start = row * w * 4;
                assert(pixels@.len() == frame.pixels@.len() - start);
                assert(pixels@.len() == w * (h - row) * 4) by (nonlinear_arith)
                    requires
                        pixels@.len() == frame.pixels@.len() - start,
                        frame.pixels@.len() == w * h * 4,
                        start == row * w * 4,
                ;
            }
            read_banner(detector, frame.width, cropped_height, pixels.as_slice())
        },
        None => {
            assert(texts_of_lines(Seq::<Option<TextLine>>::empty(), Seq::<Option<String>>::empty()));
            assert(present_lines(Seq::<Option<String>>::empty()) == Seq::<Seq<char>>::empty());
            assert(first_race(Seq::<Seq<char>>::empty(), RACE_BANNER_PATTERN@) is None);
            None
        },
    }
}

/// What became of a detected race.
#[derive(Clone, Copy, Debug, PartialEq, Eq, Structural)]
pub enum DetectionOutcome {
    /// The state moved to the detected race; the cooldown starts again.
    Accepted,
    /// Another race was detected inside the cooldown and ignored.
    IgnoredInCooldown,
    /// The current race was detected again inside the cooldown.
    Unchanged,
}

/// How a detection is reported, given whether the state accepted it.
pub open spec fn detection_report(accepted: bool, current_race: u32, race: u32) -> DetectionOutcome {
    if accepted {
        DetectionOutcome::Accepted
    } else if current_race != race {
        DetectionOutcome::IgnoredInCooldown
    } else {
        DetectionOutcome::Unchanged
    }
}

/// Classifies a detection, given whether the state accepted it and the race
/// current after it.
pub fn detection_outcome(accepted: bool, current_race: u32, race: u32) -> (outcome: DetectionOutcome)
    ensures
        outcome == detection_report(accepted, current_race, race),
{
    if accepted {
        DetectionOutcome::Accepted
    } else if current_race != race {
        DetectionOutcome::IgnoredInCooldown
    } else {
        DetectionOutcome::Unchanged
    }
}

/// Hands a detected race to the shared state and says what became of it.
pub fn apply_detection(state: &mut AppState, race: u32) -> (outcome: DetectionOutcome)
    ensures
        old(state).last_detected_time is None ==> outcome is Accepted,
        outcome is Accepted ==> final(state).state.current_race == race
            && final(state).state.current_points == old(state).state.current_points
            && final(state).last_detected_time is Some,
        !(outcome is Accepted) ==> *final(state) == *old(state),
        outcome is IgnoredInCooldown <==> (!(outcome is Accepted) && old(state).state.current_race != race),
{
    let accepted = state.try_update_race(race);
    detection_outcome(accepted, state.state.current_race, race)
}

/// A detection is reported as accepted exactly when the state accepted it;
/// a refused one is ignored in the cooldown exactly when it names another
/// race than the current one.
pub proof fn lemma_detection_report(accepted: bool, current_race: u32, race: u32)
    ensures
        (detection_report(accepted, current_race, race) == DetectionOutcome::Accepted) <==> accepted,
        (detection_report(accepted, current_race, race) == DetectionOutcome::IgnoredInCooldown) <==> (
        !accepted && current_race != race),
        (detection_report(accepted, current_race, race) == DetectionOutcome::Unchanged) <==> (!accepted
            && current_race == race),
{
}

} // verus!
