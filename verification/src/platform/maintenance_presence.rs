//! Fresh release, five-second hold, then release for irreversible maintenance.

use vstd::prelude::*;

verus! {

pub const DEBOUNCE_MS: u64 = 25;

pub const HOLD_MS: u64 = 5_000;

pub const TIMEOUT_MS: u64 = 30_000;

/// Where the maintenance gesture stands.
#[derive(Clone, Copy, Debug, PartialEq, Eq, Structural)]
pub enum GestureState {
    InitialRelease,
    AwaitPress,
    Holding,
    FinalRelease,
    Finished,
}

pub struct MaintenancePresence {
    state: GestureState,
    started: u64,
    changed: u64,
    last_pressed: bool,
}

/// The abstract state of the gesture.
pub struct MaintenanceModel {
    pub state: GestureState,
    pub started: u64,
    pub changed: u64,
    pub last_pressed: bool,
}

impl MaintenanceModel {
    /// A debounced release arms the gesture, a debounced press starts the
    /// hold, a release during the hold restarts from the beginning, a hold of
    /// five seconds waits for the final release, and the debounced final
    /// release approves once.
    pub open spec fn advance(self, pressed: bool, stable_ms: u64) -> (MaintenanceModel, Option<bool>) {
        match self.state {
            GestureState::InitialRelease => if !pressed && stable_ms >= DEBOUNCE_MS {
                (MaintenanceModel { state: GestureState::AwaitPress, ..self }, None)
            } else {
                (self, None)
            },
            GestureState::AwaitPress => if pressed && stable_ms >= DEBOUNCE_MS {
                (MaintenanceModel { state: GestureState::Holding, ..self }, None)
            } else {
                (self, None)
            },
            GestureState::Holding => if !pressed {
                (MaintenanceModel { state: GestureState::InitialRelease, ..self }, None)
            } else if stable_ms >= HOLD_MS {
                (MaintenanceModel { state: GestureState::FinalRelease, ..self }, None)
            } else {
                (self, None)
            },
            GestureState::FinalRelease => if !pressed && stable_ms >= DEBOUNCE_MS {
                (MaintenanceModel { state: GestureState::Finished, ..self }, Some(true))
            } else {
                (self, None)
            },
            GestureState::Finished => (self, None),
        }
    }

    /// One poll; cancellation, a clock running backwards, expiry and a
    /// finished gesture refuse and finish.
    pub open spec fn poll(self, pressed: bool, now_ms: u64, cancelled: bool) -> (
        MaintenanceModel,
        Option<bool>,
    ) {
        if cancelled || now_ms < self.changed || now_ms.saturating_sub(self.started) >= TIMEOUT_MS
            || self.state == GestureState::Finished {
            (MaintenanceModel { state: GestureState::Finished, ..self }, Some(false))
        } else {
            let s = if pressed != self.last_pressed {
                MaintenanceModel { last_pressed: pressed, changed: now_ms, ..self }
            } else {
                self
            };
            s.advance(pressed, now_ms.saturating_sub(s.changed))
        }
    }
}

impl View for MaintenancePresence {
    type V = MaintenanceModel;

    closed spec fn view(&self) -> MaintenanceModel {
        MaintenanceModel {
            state: self.state,
            started: self.started,
            changed: self.changed,
            last_pressed: self.last_pressed,
        }
    }
}

impl MaintenancePresence {
    pub fn new(pressed: bool, now_ms: u64) -> (r: Self)
        ensures
            r@ == (MaintenanceModel {
                state: GestureState::InitialRelease,
                started: now_ms,
                changed: now_ms,
                last_pressed: pressed,
            }),
    {
        Self { state: GestureState::InitialRelease, started: now_ms, changed: now_ms, last_pressed: pressed }
    }

    /// Some(true) is a one-time approval; every later poll returns Some(false).
    /// Cancellation and expiry take precedence over a valid final release.
    pub fn poll(&mut self, pressed: bool, now_ms: u64, cancelled: bool) -> (r: Option<bool>)
        ensures
            final(self)@ == old(self)@.poll(pressed, now_ms, cancelled).0,
            r == old(self)@.poll(pressed, now_ms, cancelled).1,
    {
        if cancelled || now_ms < self.changed || now_ms.saturating_sub(self.started) >= TIMEOUT_MS
            || self.state == GestureState::Finished {
            self.state = GestureState::Finished;
            return Some(false);
        }
        if pressed != self.last_pressed {
            self.last_pressed = pressed;
            self.changed = now_ms;
        }
        let stable_ms = now_ms.saturating_sub(self.changed);
        match self.state {
            GestureState::InitialRelease => {
                if !pressed && stable_ms >= DEBOUNCE_MS {
                    self.state = GestureState::AwaitPress;
                }
            },
            GestureState::AwaitPress => {
                if pressed && stable_ms >= DEBOUNCE_MS {
                    self.state = GestureState::Holding;
                }
            },
            GestureState::Holding => {
                if !pressed {
                    self.state = GestureState::InitialRelease;
                } else if stable_ms >= HOLD_MS {
                    self.state = GestureState::FinalRelease;
                }
            },
            GestureState::FinalRelease => {
                if !pressed && stable_ms >= DEBOUNCE_MS {
                    self.state = GestureState::Finished;
                    return Some(true);
                }
            },
            GestureState::Finished => {},
        }
        None
    }
}

/// Approval comes only from the final release after a completed hold, within
/// the time limit and without cancellation, and it finishes the gesture; a
/// finished gesture refuses every later poll.
pub proof fn lemma_approval_is_once_and_needs_a_completed_hold(
    s: MaintenanceModel,
    pressed: bool,
    now_ms: u64,
    cancelled: bool,
)
    ensures
        s.poll(pressed, now_ms, cancelled).1 == Some(true) ==> {
            &&& s.state == GestureState::FinalRelease
            &&& !pressed
            &&& !cancelled
            &&& now_ms - s.started < TIMEOUT_MS
            &&& s.poll(pressed, now_ms, cancelled).0.state == GestureState::Finished
        },
        s.state == GestureState::Finished ==> s.poll(pressed, now_ms, cancelled).1 == Some(false),
        cancelled ==> s.poll(pressed, now_ms, cancelled).1 == Some(false),
{
}

/// A release during the hold sends the gesture back to the start, so the five
/// seconds must be held again from a fresh press.
pub proof fn lemma_break_restarts_hold(s: MaintenanceModel, now_ms: u64)
    requires
        s.state == GestureState::Holding,
        s.poll(false, now_ms, false).1 != Some(false),
    ensures
        s.poll(false, now_ms, false).0.state == GestureState::InitialRelease,
{
}

} // verus!
