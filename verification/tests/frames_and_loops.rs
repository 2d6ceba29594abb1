use mkworld_tracker::agents::race_tracker::{apply_detection, detection_outcome, DetectionOutcome};
use mkworld_tracker::agents::{agent_step, AgentAction, AgentEvent};
use mkworld_tracker::capture::{is_projector_title, publisher_tick, PollOutcome, PublisherState, PublisherTick};
use mkworld_tracker::frame::{binarize_bottom_third, binarize_scoreboard, CropRect, Frame};
use mkworld_tracker::ocr::OcrDetector;
use mkworld_tracker::state::AppState;

fn frame(width: u32, height: u32, f: impl Fn(u32, u32) -> [u8; 4]) -> Frame {
    let mut pixels = Vec::new();
    for y in 0..height {
        for x in 0..width {
            pixels.extend_from_slice(&f(x, y));
        }
    }
    Frame { width, height, pixels }
}

#[test]
fn bottom_third_is_cropped_and_binarized() {
    let f = frame(2, 3, |x, y| if x == 0 { [250, 250, 250, 7] } else { [250, 100, 250, y as u8] });
    let (h, bytes) = binarize_bottom_third(&f).unwrap();
    assert_eq!(h, 1);
    assert_eq!(bytes, vec![0, 0, 0, 7, 255, 255, 255, 2]);
}

#[test]
fn bottom_third_threshold_is_strict() {
    let f = frame(1, 1, |_, _| [201, 201, 200, 255]);
    let (h, bytes) = binarize_bottom_third(&f).unwrap();
    assert_eq!(h, 1);
    assert_eq!(bytes, vec![255, 255, 255, 255]);
}

#[test]
fn empty_frame_has_no_bottom_third() {
    let f = frame(0, 5, |_, _| [0, 0, 0, 0]);
    assert!(binarize_bottom_third(&f).is_none());
    let f = frame(4, 0, |_, _| [0, 0, 0, 0]);
    assert!(binarize_bottom_third(&f).is_none());
}

#[test]
fn scoreboard_crop_marks_bright_pixels_black() {
    let f = frame(3, 2, |x, y| if x == 1 && y == 1 { [181, 200, 255, 0] } else { [180, 255, 255, 0] });
    let rect = CropRect { x_start: 1, x_end: 3, y_start: 1, y_end: 2 };
    let (w, h, bytes) = binarize_scoreboard(&f, &rect);
    assert_eq!((w, h), (2, 1));
    assert_eq!(bytes, vec![0, 0, 0, 255, 255, 255, 255, 255]);
}

#[test]
fn scoreboard_crop_is_row_major() {
    let f = frame(2, 2, |x, y| if x == y { [255, 255, 255, 255] } else { [0, 0, 0, 255] });
    let rect = CropRect { x_start: 0, x_end: 2, y_start: 0, y_end: 2 };
    let (_, _, bytes) = binarize_scoreboard(&f, &rect);
    assert_eq!(bytes, vec![0, 0, 0, 255, 255, 255, 255, 255, 255, 255, 255, 255, 0, 0, 0, 255]);
}

#[test]
fn detector_refuses_bad_models() {
    assert!(OcrDetector::new(vec![1, 2, 3], vec![4, 5, 6]).is_err());
}

#[test]
fn detections_are_classified() {
    assert_eq!(detection_outcome(true, 3, 3), DetectionOutcome::Accepted);
    assert_eq!(detection_outcome(false, 3, 4), DetectionOutcome::IgnoredInCooldown);
    assert_eq!(detection_outcome(false, 3, 3), DetectionOutcome::Unchanged);
    let mut s = AppState::new();
    assert_eq!(apply_detection(&mut s, 6), DetectionOutcome::Accepted);
    assert_eq!(apply_detection(&mut s, 7), DetectionOutcome::IgnoredInCooldown);
    assert_eq!(apply_detection(&mut s, 6), DetectionOutcome::Unchanged);
    assert_eq!(s.state.current_race, 6);
}

#[test]
fn agents_react_to_events() {
    assert_eq!(agent_step(AgentEvent::Cancelled), AgentAction::Stop);
    assert_eq!(agent_step(AgentEvent::ChannelClosed), AgentAction::Stop);
    assert_eq!(agent_step(AgentEvent::FrameChanged { has_frame: true }), AgentAction::Process);
    assert_eq!(agent_step(AgentEvent::FrameChanged { has_frame: false }), AgentAction::Wait);
}

#[test]
fn projector_titles() {
    assert!(is_projector_title("Windowed Projector (Preview)"));
    assert!(is_projector_title("PROJECTOR"));
    assert!(!is_projector_title("OBS 30.1"));
    assert!(!is_projector_title(""));
}

#[test]
fn publisher_ticks() {
    assert_eq!(publisher_tick(true, 5_000_000_000), PublisherTick::Stop);
    assert_eq!(publisher_tick(false, 999_999_999), PublisherTick::Wait);
    assert_eq!(publisher_tick(false, 1_000_000_000), PublisherTick::Poll);
}

#[test]
fn publisher_announces_hook_once() {
    let mut p = PublisherState::new();
    let n = p.on_poll(PollOutcome::Captured);
    assert!(n.hooked && n.publish && !n.lost_stream && !n.lost_window);
    let n = p.on_poll(PollOutcome::Captured);
    assert!(!n.hooked && n.publish);
    let n = p.on_poll(PollOutcome::WindowMissing);
    assert!(n.lost_window && !n.publish);
    let n = p.on_poll(PollOutcome::WindowMissing);
    assert!(!n.lost_window);
    let n = p.on_poll(PollOutcome::CaptureFailed);
    assert!(n.hooked && n.lost_stream && !n.publish);
    assert!(!p.printed_wait_message);
}
