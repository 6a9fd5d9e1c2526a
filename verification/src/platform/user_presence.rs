//! Debounced, one-shot user-presence tracking.

use vstd::prelude::*;

verus! {

pub const DEFAULT_DEBOUNCE_MS: u64 = 30;

/// Converts active-low button samples into one confirmation per armed request.
///
/// A request is armed immediately only when both the raw and debounced button
/// states are released. If the button was already held, it must first be
/// released and debounced before a later press can confirm the request.
#[derive(Clone, Copy, Debug, PartialEq, Eq)]
pub struct PresenceTracker {
    debounce_ms: u64,
    raw_pressed: bool,
    raw_since_ms: u64,
    stable_pressed: bool,
    waiting: bool,
    armed: bool,
    confirmation_pending: bool,
}

/// The abstract state of a tracker.
pub struct TrackerModel {
    pub debounce_ms: u64,
    pub raw_pressed: bool,
    pub raw_since_ms: u64,
    pub stable_pressed: bool,
    pub waiting: bool,
    pub armed: bool,
    pub confirmation_pending: bool,
}

impl TrackerModel {
    pub open spec fn begin_waiting(self) -> TrackerModel {
        TrackerModel {
            waiting: true,
            confirmation_pending: false,
            armed: !self.raw_pressed && !self.stable_pressed,
            ..self
        }
    }

    pub open spec fn end_waiting(self) -> TrackerModel {
        TrackerModel { waiting: false, armed: false, confirmation_pending: false, ..self }
    }

    /// A raw change restarts the debounce timer; a level held for the debounce
    /// time becomes the stable level, and while waiting a stable press of an
    /// armed request confirms it, a stable release arms it.
    pub open spec fn sample(self, pressed: bool, now_ms: u64) -> TrackerModel {
        if pressed != self.raw_pressed {
            TrackerModel { raw_pressed: pressed, raw_since_ms: now_ms, ..self }
        } else if pressed == self.stable_pressed || now_ms.saturating_sub(self.raw_since_ms)
            < self.debounce_ms {
            self
        } else if !self.waiting {
            TrackerModel { stable_pressed: pressed, ..self }
        } else if pressed {
            if self.armed {
                TrackerModel {
                    stable_pressed: pressed,
                    confirmation_pending: true,
                    armed: false,
                    ..self
                }
            } else {
                TrackerModel { stable_pressed: pressed, ..self }
            }
        } else {
            TrackerModel { stable_pressed: pressed, armed: true, ..self }
        }
    }

    pub open spec fn take_confirmation(self) -> (TrackerModel, bool) {
        (TrackerModel { confirmation_pending: false, ..self }, self.confirmation_pending)
    }

    /// A confirmation is pending only while a request waits.
    pub open spec fn wf(self) -> bool {
        self.confirmation_pending ==> self.waiting
    }
}

impl View for PresenceTracker {
    type V = TrackerModel;

    closed spec fn view(&self) -> TrackerModel {
        TrackerModel {
            debounce_ms: self.debounce_ms,
            raw_pressed: self.raw_pressed,
            raw_since_ms: self.raw_since_ms,
            stable_pressed: self.stable_pressed,
            waiting: self.waiting,
            armed: self.armed,
            confirmation_pending: self.confirmation_pending,
        }
    }
}

impl PresenceTracker {
    pub fn new(initial_pressed: bool, now_ms: u64, debounce_ms: u64) -> (r: Self)
        ensures
            r@ == (TrackerModel {
                debounce_ms,
                raw_pressed: initial_pressed,
                raw_since_ms: now_ms,
                stable_pressed: initial_pressed,
                waiting: false,
                armed: false,
                confirmation_pending: false,
            }),
    {
        Self {
            debounce_ms,
            raw_pressed: initial_pressed,
            raw_since_ms: now_ms,
            stable_pressed: initial_pressed,
            waiting: false,
            armed: false,
            confirmation_pending: false,
        }
    }

    pub fn begin_waiting(&mut self)
        ensures
            final(self)@ == old(self)@.begin_waiting(),
    {
        self.waiting = true;
        self.confirmation_pending = false;
        self.armed = !self.raw_pressed && !self.stable_pressed;
    }

    pub fn end_waiting(&mut self)
        ensures
            final(self)@ == old(self)@.end_waiting(),
    {
        self.waiting = false;
        self.armed = false;
        self.confirmation_pending = false;
    }

    pub fn sample(&mut self, pressed: bool, now_ms: u64)
        ensures
            final(self)@ == old(self)@.sample(pressed, now_ms),
    {
        if pressed != self.raw_pressed {
            self.raw_pressed = pressed;
            self.raw_since_ms = now_ms;
            return ;
        }
        if pressed == self.stable_pressed || now_ms.saturating_sub(self.raw_since_ms)
            < self.debounce_ms {
            return ;
        }
        self.stable_pressed = pressed;
        if !self.waiting {
            return ;
        }
        if pressed {
            if self.armed {
                self.confirmation_pending = true;
                self.armed = false;
            }
        } else {
            self.armed = true;
        }
    }

    pub fn take_confirmation(&mut self) -> (r: bool)
        ensures
            final(self)@ == old(self)@.take_confirmation().0,
            r == old(self)@.take_confirmation().1,
    {
        let pending = self.confirmation_pending;
        self.confirmation_pending = false;
        pending
    }
}

/// Every operation keeps confirmations confined to a waiting request.
pub proof fn lemma_confirmation_only_while_waiting(s: TrackerModel, pressed: bool, now_ms: u64)
    requires
        s.wf(),
    ensures
        s.begin_waiting().wf(),
        s.end_waiting().wf(),
        s.sample(pressed, now_ms).wf(),
        s.take_confirmation().0.wf(),
{
}

/// A confirmation is consumed once: taking it again right away yields nothing,
/// and ending the request discards it.
pub proof fn lemma_confirmation_is_one_shot(s: TrackerModel)
    ensures
        !s.take_confirmation().0.take_confirmation().1,
        !s.end_waiting().take_confirmation().1,
{
}

/// A sample creates a confirmation only for an armed request, from a press
/// that has been stable for the debounce time, and uses up the arming.
pub proof fn lemma_confirmation_needs_armed_debounced_press(
    s: TrackerModel,
    pressed: bool,
    now_ms: u64,
)
    ensures
        ({
            let t = s.sample(pressed, now_ms);
            t.confirmation_pending && !s.confirmation_pending ==> {
                &&& s.armed && s.waiting && pressed && s.raw_pressed
                &&& now_ms.saturating_sub(s.raw_since_ms) >= s.debounce_ms
                &&& !t.armed
            }
        }),
{
}

/// A request is armed only by a debounced release while waiting, or by
/// beginning to wait with the button released.
pub proof fn lemma_arming_needs_release(s: TrackerModel, pressed: bool, now_ms: u64)
    ensures
        s.sample(pressed, now_ms).armed && !s.armed ==> !pressed && s.waiting && !s.sample(
            pressed,
            now_ms,
        ).stable_pressed,
        s.begin_waiting().armed ==> !s.raw_pressed && !s.stable_pressed,
{
}

} // verus!
