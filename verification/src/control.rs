//! The control loop as a state machine.
//!
//! The machine decides; its driver acts. In each state the machine names the
//! one thing that the driver is to do, and the driver reports back with the
//! event that tells how it went. Nothing that the driver can report stops the
//! machine: a failed write is answered like a successful one, by waiting for
//! the next cycle.

use crate::curve::PwmCalculator;
use crate::sensors::{
    answers, cpu_zone_name, gpu_zone_name, lemma_reading_source, reading, SnapshotView, SystemInfo,
    ZoneView,
};
use vstd::prelude::*;

verus! {

/// The pause between two cycles, in seconds.
pub const POLL_INTERVAL_SECS: u64 = 5;

/// Where in its cycle the control loop stands.
#[derive(Clone, Copy, Debug, PartialEq, Eq, Structural)]
pub enum State {
    /// The sensors are to be read.
    Sampling,
    /// The readings of record are at hand and the duty cycle is to be
    /// decided.
    Evaluating(PwmCalculator),
    /// The duty cycle is decided and is to be written to the fan.
    Actuating(u8),
    /// The cycle is over and the next one is to be awaited.
    Waiting,
}

/// What the driver is to do for the machine.
#[derive(Clone, Copy, Debug, PartialEq, Eq, Structural)]
pub enum Action {
    /// Read the thermal zones and report the snapshot.
    ReadSensors,
    /// Nothing: report that the machine may go on.
    Proceed,
    /// Write this duty cycle to the fan and report how the write went.
    SetFanPwm(u8),
    /// Sleep for this many seconds and report when they are over.
    Sleep(u64),
}

/// What the driver reports to the machine.
#[derive(Clone, Debug, PartialEq, Eq)]
pub enum Event {
    /// The sensors were read: this is what they said.
    Sampled(SystemInfo),
    /// Nothing was to be done.
    Ready,
    /// The duty cycle was written (`true`), or the write failed (`false`).
    Written(bool),
    /// The pause is over.
    Elapsed,
}

/// An event as contracts see it.
pub enum EventView {
    Sampled(SnapshotView),
    Ready,
    Written(bool),
    Elapsed,
}

impl View for Event {
    type V = EventView;

    open spec fn view(&self) -> EventView {
        match self {
            Event::Sampled(info) => EventView::Sampled(info@),
            Event::Ready => EventView::Ready,
            Event::Written(ok) => EventView::Written(*ok),
            Event::Elapsed => EventView::Elapsed,
        }
    }
}

/// The readings of record among `zones`: those of the processor's and of the
/// graphics processor's zone.
pub open spec fn readings_of(zones: Seq<ZoneView>) -> PwmCalculator {
    PwmCalculator {
        cpu_temp: reading(zones, cpu_zone_name()),
        gpu_temp: reading(zones, gpu_zone_name()),
    }
}

/// The state that follows evaluation: actuation where the readings call for
/// a duty cycle, and else the pause.
pub open spec fn after_evaluation(readings: PwmCalculator) -> State {
    match readings.pwm() {
        Some(pwm) => State::Actuating(pwm),
        None => State::Waiting,
    }
}

/// What the driver is to do in `state`.
pub open spec fn action_of(state: State) -> Action {
    match state {
        State::Sampling => Action::ReadSensors,
        State::Evaluating(_) => Action::Proceed,
        State::Actuating(pwm) => Action::SetFanPwm(pwm),
        State::Waiting => Action::Sleep(POLL_INTERVAL_SECS),
    }
}

/// The state that follows `state` on `event`. Sampling ends with a snapshot,
/// evaluation with any event, actuation with the report of the write however
/// it went, the pause with its end. Any other event leaves the state as it
/// is.
pub open spec fn next_state(state: State, event: EventView) -> State {
    match (state, event) {
        (State::Sampling, EventView::Sampled(info)) => State::Evaluating(readings_of(info.zones)),
        (State::Evaluating(readings), _) => after_evaluation(readings),
        (State::Actuating(_), EventView::Written(_)) => State::Waiting,
        (State::Waiting, EventView::Elapsed) => State::Sampling,
        _ => state,
    }
}

impl State {
    /// The state in which the loop begins.
    pub fn start() -> (r: State)
        ensures
            r == State::Sampling,
    {
        State::Sampling
    }

    /// What the driver is to do in this state.
    pub fn action(&self) -> (r: Action)
        ensures
            r == action_of(*self),
    {
        match self {
            State::Sampling => Action::ReadSensors,
            State::Evaluating(_) => Action::Proceed,
            State::Actuating(pwm) => Action::SetFanPwm(*pwm),
            State::Waiting => Action::Sleep(POLL_INTERVAL_SECS),
        }
    }

    /// Takes the machine from this state to the next on `event`, and says
    /// what the driver is to do there.
    pub fn step(self, event: &Event) -> (r: (State, Action))
        ensures
            r.0 == next_state(self, event@),
            r.1 == action_of(r.0),
            self is Actuating && event is Written ==> r.0 is Waiting,
            r.0 is Actuating ==> self is Evaluating || self is Actuating,
    {
        let next = match (self, event) {
            (State::Sampling, Event::Sampled(info)) => State::Evaluating(
                PwmCalculator::from_snapshot(info),
            ),
            (State::Evaluating(readings), _) => match readings.get_pwm() {
                Some(pwm) => State::Actuating(pwm),
                None => State::Waiting,
            },
            (State::Actuating(_), Event::Written(_)) => State::Waiting,
            (State::Waiting, Event::Elapsed) => State::Sampling,
            _ => self,
        };
        let action = next.action();
        (next, action)
    }
}

/// The loop runs through its states in one order and never leaves them:
/// from sampling to evaluation, from there to actuation where a duty cycle
/// was decided and to the pause where none was, from actuation to the
/// pause, and from the pause back to sampling.
pub proof fn lemma_cycle_order(
    info: SnapshotView,
    readings: PwmCalculator,
    pwm: u8,
    written: bool,
    event: EventView,
)
    ensures
        next_state(State::Sampling, EventView::Sampled(info)) == State::Evaluating(
            readings_of(info.zones),
        ),
        readings.pwm() is Some ==> next_state(State::Evaluating(readings), event)
            == State::Actuating(readings.pwm().unwrap()),
        readings.pwm() is None ==> next_state(State::Evaluating(readings), event)
            == State::Waiting,
        next_state(State::Actuating(pwm), EventView::Written(written)) == State::Waiting,
        next_state(State::Waiting, EventView::Elapsed) == State::Sampling,
{
}

/// A write that failed does not stop the loop: whatever the report of the
/// write says, the pause follows, and after it the next sampling.
pub proof fn lemma_failed_write_goes_on(pwm: u8, written: bool)
    ensures
        next_state(State::Actuating(pwm), EventView::Written(written)) == State::Waiting,
        action_of(next_state(State::Actuating(pwm), EventView::Written(written)))
            == Action::Sleep(POLL_INTERVAL_SECS),
        next_state(
            next_state(State::Actuating(pwm), EventView::Written(written)),
            EventView::Elapsed,
        ) == State::Sampling,
{
}

/// Where no zone that answers for a sensor of interest has a temperature,
/// no duty cycle is decided and the fan is not written to in that cycle:
/// evaluation is followed by the pause. A snapshot without zones is such a
/// case.
pub proof fn lemma_no_reading_no_actuation(info: SnapshotView, event: EventView)
    requires
        forall|k: int|
            0 <= k < info.zones.len() && (answers(#[trigger] info.zones[k], cpu_zone_name())
                || answers(info.zones[k], gpu_zone_name())) ==> info.zones[k].temperature
                is None,
    ensures
        readings_of(info.zones).pwm() is None,
        next_state(next_state(State::Sampling, EventView::Sampled(info)), event)
            == State::Waiting,
{
    let zones = info.zones;
    if reading(zones, cpu_zone_name()) is Some {
        lemma_reading_source(zones, cpu_zone_name());
    }
    if reading(zones, gpu_zone_name()) is Some {
        lemma_reading_source(zones, gpu_zone_name());
    }
}

} // verus!
