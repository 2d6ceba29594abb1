//! The shared race state: which race of the event is running and the
//! player's running points, with the rules by which detections update it.
use crate::clock::{instant_now, nanos_since};
use std::time::Instant;
use vstd::prelude::*;

verus! {

/// How long a race detection blocks the next one: two minutes, in
/// nanoseconds. A detection is accepted only once more than this has passed.
pub const RACE_COOLDOWN_NANOS: u128 = 120_000_000_000u128;

/// What the overlay shows: the current race and the running points, if read yet.
#[derive(Clone, Copy, Debug, PartialEq, Eq, Structural)]
pub struct RaceState {
    pub current_race: u32,
    pub current_points: Option<u32>,
}

/// The race state, the state's clock origin, and the time of the last
/// accepted race detection, in nanoseconds after that origin.
pub struct AppState {
    pub state: RaceState,
    pub last_detected_time: Option<u128>,
    pub clock_origin: Instant,
}

/// Whether a detection that comes `since_last` nanoseconds after the last
/// accepted one (or with none before it) falls inside the cooldown: two
/// minutes or less after it.
pub open spec fn in_cooldown(since_last: Option<u128>) -> bool {
    match since_last {
        Some(e) => e <= RACE_COOLDOWN_NANOS,
        None => false,
    }
}

/// The time from the last accepted detection to `now` (none before it
/// counts as no detection; a reading before it counts as no time passed).
pub open spec fn elapsed_since(last: Option<u128>, now: u128) -> Option<u128> {
    match last {
        Some(t) => Some(if now >= t { (now - t) as u128 } else { 0u128 }),
        None => None,
    }
}

/// The effect of a race detection at clock reading `now`: the new state and
/// whether it was accepted.
pub open spec fn race_transition(s: AppState, new_race: u32, now: u128) -> (AppState, bool) {
    if in_cooldown(elapsed_since(s.last_detected_time, now)) {
        (s, false)
    } else {
        (
            AppState {
                state: RaceState { current_race: new_race, current_points: s.state.current_points },
                last_detected_time: Some(now),
                clock_origin: s.clock_origin,
            },
            true,
        )
    }
}

/// The effect of a points reading: the new state and whether it changed anything.
pub open spec fn points_transition(s: AppState, points: u32) -> (AppState, bool) {
    if s.state.current_points == Some(points) {
        (s, false)
    } else {
        (
            AppState {
                state: RaceState { current_race: s.state.current_race, current_points: Some(points) },
                last_detected_time: s.last_detected_time,
                clock_origin: s.clock_origin,
            },
            true,
        )
    }
}

impl AppState {
    /// The state at start-up: first race, no points read, no detection yet;
    /// the clock origin is the instant of start-up.
    pub fn new() -> (s: Self)
        ensures
            s.state == (RaceState { current_race: 1, current_points: None }),
            s.last_detected_time is None,
    {
        AppState {
            state: RaceState { current_race: 1, current_points: None },
            last_detected_time: None,
            clock_origin: instant_now(),
        }
    }

    /// Applies a detected race number at clock reading `now` (nanoseconds
    /// after the clock origin). Accepted only when there was no accepted
    /// detection before, or more than two minutes have passed since it.
    pub fn record_race(&mut self, new_race: u32, now: u128) -> (accepted: bool)
        ensures
            (*final(self), accepted) == race_transition(*old(self), new_race, now),
    {
        match self.last_detected_time {
            Some(t) => {
                let elapsed: u128 = if now >= t { now - t } else { 0 };
                if elapsed <= RACE_COOLDOWN_NANOS {
                    return false;
                }
            },
            None => {},
        }
        self.state.current_race = new_race;
        self.last_detected_time = Some(now);
        true
    }

    /// Updates the current race if it has been more than two minutes since
    /// the last accepted detection (or there was none), reading the monotonic
    /// clock for the time of this detection.
    pub fn try_update_race(&mut self, new_race: u32) -> (accepted: bool)
        ensures
            exists|now: u128| (*final(self), accepted) == #[trigger] race_transition(*old(self), new_race, now),
            old(self).last_detected_time is None ==> accepted,
            accepted ==> final(self).state.current_race == new_race
                && final(self).state.current_points == old(self).state.current_points
                && final(self).last_detected_time is Some,
            !accepted ==> *final(self) == *old(self),
    {
        let now = nanos_since(&self.clock_origin);
        let accepted = self.record_race(new_race, now);
        assert((*self, accepted) == race_transition(*old(self), new_race, now));
        accepted
    }

    /// Updates the running points; refused (returning `false`) when they are unchanged.
    pub fn try_update_points(&mut self, points: u32) -> (changed: bool)
        ensures
            (*final(self), changed) == points_transition(*old(self), points),
    {
        match self.state.current_points {
            Some(p) => {
                if p == points {
                    return false;
                }
            },
            None => {},
        }
        self.state.current_points = Some(points);
        true
    }
}

/// A race detection is accepted exactly when it does not fall inside the
/// two-minute cooldown; an accepted one moves to the detected race, stores
/// its own clock reading and keeps the points; a refused one changes nothing.
pub proof fn lemma_race_cooldown(s: AppState, new_race: u32, now: u128)
    ensures
        race_transition(s, new_race, now).1 <==> !in_cooldown(elapsed_since(s.last_detected_time, now)),
        !race_transition(s, new_race, now).1 ==> race_transition(s, new_race, now).0 == s,
        race_transition(s, new_race, now).1 ==> ({
            let t = race_transition(s, new_race, now).0;
            &&& t.state.current_race == new_race
            &&& t.state.current_points == s.state.current_points
            &&& t.last_detected_time == Some(now)
        }),
        race_transition(s, new_race, now).1 ==> (s.last_detected_time matches Some(t) ==> now > t
            + RACE_COOLDOWN_NANOS),
{
}

/// The first detection, and any detection more than two minutes after the
/// last accepted one, is accepted.
pub proof fn lemma_race_accepted_outside_cooldown(s: AppState, new_race: u32, now: u128)
    requires
        s.last_detected_time matches Some(t) ==> now > t + RACE_COOLDOWN_NANOS,
    ensures
        race_transition(s, new_race, now).1,
{
}

/// A points reading is refused exactly when it repeats the current points;
/// otherwise it becomes the current points. Reading the same points twice
/// in a row changes the state only once.
pub proof fn lemma_points_update(s: AppState, points: u32)
    ensures
        points_transition(s, points).1 <==> s.state.current_points != Some(points),
        points_transition(s, points).0.state.current_points == Some(points),
        points_transition(points_transition(s, points).0, points) == (points_transition(s, points).0, false),
{
}

/// Races and points are kept apart: a race detection never touches the
/// points, and a points reading never touches the race or the cooldown.
pub proof fn lemma_updates_independent(s: AppState, new_race: u32, now: u128, points: u32)
    ensures
        race_transition(s, new_race, now).0.state.current_points == s.state.current_points,
        points_transition(s, points).0.state.current_race == s.state.current_race,
        points_transition(s, points).0.last_detected_time == s.last_detected_time,
{
}

/// The race stays a race of the event: from a state whose race is 1 to 12,
/// a detection of a race from 1 to 12, accepted or not, leaves it 1 to 12.
pub proof fn lemma_race_stays_in_event(s: AppState, new_race: u32, now: u128)
    requires
        1 <= s.state.current_race <= 12,
        1 <= new_race <= 12,
    ensures
        1 <= race_transition(s, new_race, now).0.state.current_race <= 12,
{
}

/// The state after a run of race detections, each a detected race and the
/// clock reading it was made at, applied in order.
pub open spec fn race_run(s: AppState, calls: Seq<(u32, u128)>) -> AppState
    decreases calls.len(),
{
    if calls.len() == 0 {
        s
    } else {
        race_transition(race_run(s, calls.drop_last()), calls.last().0, calls.last().1).0
    }
}

/// Whether detection `i` of a run was accepted.
pub open spec fn run_accepts(s: AppState, calls: Seq<(u32, u128)>, i: int) -> bool {
    race_transition(race_run(s, calls.take(i)), calls[i].0, calls[i].1).1
}

proof fn lemma_race_run_step(s: AppState, calls: Seq<(u32, u128)>, n: int)
    requires
        0 <= n < calls.len(),
    ensures
        race_run(s, calls.take(n + 1)) == race_transition(
            race_run(s, calls.take(n)),
            calls[n].0,
            calls[n].1,
        ).0,
{
    assert(calls.take(n + 1).drop_last() =~= calls.take(n));
    assert(calls.take(n + 1).last() == calls[n]);
}

/// After the first `n` detections of a run, the stored time is that of the
/// latest accepted one, at or after every accepted one.
proof fn lemma_race_run_latest(s: AppState, calls: Seq<(u32, u128)>, n: int)
    requires
        0 <= n <= calls.len(),
    ensures
        forall|i: int| 0 <= i < n && #[trigger] run_accepts(s, calls, i) ==> (
            race_run(s, calls.take(n)).last_detected_time matches Some(l) && l >= calls[i].1),
        forall|i: int| 0 <= i < n && #[trigger] run_accepts(s, calls, i)
            && (forall|k: int| i < k < n ==> !run_accepts(s, calls, k))
            ==> race_run(s, calls.take(n)).last_detected_time == Some(calls[i].1),
    decreases n,
{
    if n > 0 {
        lemma_race_run_latest(s, calls, n - 1);
        lemma_race_run_step(s, calls, n - 1);
        assert forall|i: int| 0 <= i < n && #[trigger] run_accepts(s, calls, i)
            && (forall|k: int| i < k < n ==> !run_accepts(s, calls, k))
            implies race_run(s, calls.take(n)).last_detected_time == Some(calls[i].1) by {
            if i < n - 1 {
                assert(!run_accepts(s, calls, n - 1));
                assert forall|k: int| i < k < n - 1 implies !run_accepts(s, calls, k) by {
                    assert(!run_accepts(s, calls, k));
                }
            }
        }
    }
}

/// Over any run of race detections, two accepted detections are more than
/// two minutes apart, and the stored time is always the clock reading of the
/// latest accepted detection.
pub proof fn lemma_accepted_detections_apart(s: AppState, calls: Seq<(u32, u128)>, i: int, j: int)
    requires
        0 <= i < j < calls.len(),
        run_accepts(s, calls, i),
        run_accepts(s, calls, j),
    ensures
        calls[j].1 > calls[i].1 + RACE_COOLDOWN_NANOS,
        race_run(s, calls.take(j + 1)).last_detected_time == Some(calls[j].1),
{
    lemma_race_run_latest(s, calls, j);
    lemma_race_run_step(s, calls, j);
}

/// In plain numbers: a detection at clock reading `now` (nanoseconds) is
/// accepted exactly when there was no accepted detection before, or the last
/// one was more than 120,000,000,000 ns (two minutes) before `now`.
pub proof fn lemma_race_accepted_after_two_minutes(s: AppState, new_race: u32, now: u128)
    ensures
        race_transition(s, new_race, now).1 <==> match s.last_detected_time {
            None => true,
            Some(t) => now > t + 120_000_000_000,
        },
{
}

} // verus!
