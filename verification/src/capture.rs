//! The decisions of the frame publisher: when to poll for the projector
//! window, which window it is, and what to announce as it is found and lost.
use crate::text::{contains_text, has_substring, lowercase_of, to_lowercase};
use vstd::prelude::*;

verus! {

/// Frames are captured at most once per second, in nanoseconds.
pub const CAPTURE_INTERVAL_NANOS: u128 = 1_000_000_000u128;

/// What the publisher loop does on a tick.
#[derive(Clone, Copy, Debug, PartialEq, Eq, Structural)]
pub enum PublisherTick {
    /// The shutdown token was cancelled: leave the loop.
    Stop,
    /// Less than a second since the last scan: sleep briefly and tick again.
    Wait,
    /// Look for the projector window and capture it.
    Poll,
}

/// The publisher stops once cancelled and polls at most once per second.
pub open spec fn tick_decision(cancelled: bool, since_last_scan: u128) -> PublisherTick {
    if cancelled {
        PublisherTick::Stop
    } else if since_last_scan < CAPTURE_INTERVAL_NANOS {
        PublisherTick::Wait
    } else {
        PublisherTick::Poll
    }
}

/// Decides a tick of the publisher loop, given whether shutdown was asked
/// for and how many nanoseconds passed since the last scan.
pub fn publisher_tick(cancelled: bool, since_last_scan: u128) -> (tick: PublisherTick)
    ensures
        tick == tick_decision(cancelled, since_last_scan),
{
    if cancelled {
        PublisherTick::Stop
    } else if since_last_scan < CAPTURE_INTERVAL_NANOS {
        PublisherTick::Wait
    } else {
        PublisherTick::Poll
    }
}

/// Whether a window with this title is the projector: its lowercased title
/// holds "projector".
pub fn is_projector_title(title: &str) -> (is_projector: bool)
    ensures
        is_projector == has_substring(lowercase_of(title@), "projector"@),
{
    let lower = to_lowercase(title);
    contains_text(lower.as_str(), "projector")
}

/// How a poll of the windows went.
#[derive(Clone, Copy, Debug, PartialEq, Eq, Structural)]
pub enum PollOutcome {
    /// No window is the projector.
    WindowMissing,
    /// The projector window was found and a frame captured from it.
    Captured,
    /// The projector window was found but could not be captured.
    CaptureFailed,
}

/// What to announce and send after a poll.
#[derive(Clone, Copy, Debug, PartialEq, Eq, Structural)]
pub struct PollNotices {
    /// Announce that the projector window was hooked.
    pub hooked: bool,
    /// Announce that the window's stream was lost (is it minimised?).
    pub lost_stream: bool,
    /// Announce that the projector window is gone.
    pub lost_window: bool,
    /// Send the captured frame to the agents.
    pub publish: bool,
}

/// Whether the publisher has announced a hooked window that it still sees.
#[derive(Clone, Copy, Debug, PartialEq, Eq, Structural)]
pub struct PublisherState {
    pub printed_wait_message: bool,
}

/// The announcements of a poll and whether a window is hooked afterwards:
/// a found window is announced once, until it is lost again.
pub open spec fn poll_transition(hooked_before: bool, outcome: PollOutcome) -> (bool, PollNotices) {
    match outcome {
        PollOutcome::WindowMissing => (
            false,
            PollNotices { hooked: false, lost_stream: false, lost_window: hooked_before, publish: false },
        ),
        PollOutcome::Captured => (
            true,
            PollNotices { hooked: !hooked_before, lost_stream: false, lost_window: false, publish: true },
        ),
        PollOutcome::CaptureFailed => (
            false,
            PollNotices { hooked: !hooked_before, lost_stream: true, lost_window: false, publish: false },
        ),
    }
}

impl PublisherState {
    /// Nothing announced yet.
    pub fn new() -> (s: Self)
        ensures
            !s.printed_wait_message,
    {
        PublisherState { printed_wait_message: false }
    }

    /// Records how a poll went and says what to announce and send.
    pub fn on_poll(&mut self, outcome: PollOutcome) -> (notices: PollNotices)
        ensures
            (final(self).printed_wait_message, notices) == poll_transition(
                old(self).printed_wait_message,
                outcome,
            ),
    {
        let before = self.printed_wait_message;
        match outcome {
            PollOutcome::WindowMissing => {
                self.printed_wait_message = false;
                PollNotices { hooked: false, lost_stream: false, lost_window: before, publish: false }
            },
            PollOutcome::Captured => {
                self.printed_wait_message = true;
                PollNotices { hooked: !before, lost_stream: false, lost_window: false, publish: true }
            },
            PollOutcome::CaptureFailed => {
                self.printed_wait_message = false;
                PollNotices { hooked: !before, lost_stream: true, lost_window: false, publish: false }
            },
        }
    }
}

/// The publisher polls at most once per second and never after shutdown.
pub proof fn lemma_poll_rate(cancelled: bool, since_last_scan: u128)
    ensures
        tick_decision(cancelled, since_last_scan) == PublisherTick::Poll ==> !cancelled
            && since_last_scan >= CAPTURE_INTERVAL_NANOS,
        cancelled ==> tick_decision(cancelled, since_last_scan) == PublisherTick::Stop,
{
}

/// A hooked window is announced once: while frames keep coming it is not
/// announced again, and it is announced as lost only if it was announced.
pub proof fn lemma_hook_announced_once(hooked_before: bool, outcome: PollOutcome)
    ensures
        poll_transition(poll_transition(hooked_before, PollOutcome::Captured).0, PollOutcome::Captured).1.hooked == false,
        poll_transition(hooked_before, outcome).1.lost_window ==> hooked_before,
        poll_transition(hooked_before, outcome).1.publish <==> outcome == PollOutcome::Captured,
        poll_transition(hooked_before, outcome).0 <==> outcome == PollOutcome::Captured,
{
}

/// A tick that is not cancelled polls exactly when at least one second
/// (1,000,000,000 ns) has passed since the last scan, and waits otherwise;
/// a cancelled tick stops.
pub proof fn lemma_tick_polls_after_a_second(cancelled: bool, since_last_scan: u128)
    ensures
        !cancelled && since_last_scan >= 1_000_000_000 ==> tick_decision(cancelled, since_last_scan)
            == PublisherTick::Poll,
        !cancelled && since_last_scan < 1_000_000_000 ==> tick_decision(cancelled, since_last_scan)
            == PublisherTick::Wait,
        cancelled ==> tick_decision(cancelled, since_last_scan) == PublisherTick::Stop,
{
}

/// What a poll announces: a capture is always sent, and the window is
/// announced as hooked exactly when it was not hooked before; a failed
/// capture always announces the lost stream (after announcing the hook if
/// it was not hooked); a missing window announces its loss exactly when it
/// was hooked. Only a capture leaves the window hooked.
pub proof fn lemma_poll_announcements(hooked_before: bool, outcome: PollOutcome)
    ensures
        outcome == PollOutcome::Captured ==> poll_transition(hooked_before, outcome) == (
            true,
            PollNotices { hooked: !hooked_before, lost_stream: false, lost_window: false, publish: true },
        ),
        outcome == PollOutcome::CaptureFailed ==> poll_transition(hooked_before, outcome) == (
            false,
            PollNotices { hooked: !hooked_before, lost_stream: true, lost_window: false, publish: false },
        ),
        outcome == PollOutcome::WindowMissing ==> poll_transition(hooked_before, outcome) == (
            false,
            PollNotices { hooked: false, lost_stream: false, lost_window: hooked_before, publish: false },
        ),
{
}

} // verus!
