//! Fresh button consent for authentication and maintenance.

use vstd::prelude::*;

verus! {

/// One conversion of the button input.
#[derive(Clone, Copy, Debug, PartialEq, Eq, Structural)]
pub enum Level {
    Released,
    Pressed,
    Uncertain,
    Fault,
}

/// Where a gesture stands.
#[derive(Clone, Copy, Debug, PartialEq, Eq, Structural)]
pub enum Phase {
    InitialRelease,
    AwaitPress,
    FinalRelease,
    Finished,
}

pub struct PresenceGate {
    phase: Phase,
    deadline: u64,
    last_poll: u64,
    last_level: Level,
    since: u64,
    release_ms: u64,
    press_ms: u64,
    long_hold: bool,
}

/// The abstract state of a gate.
pub struct GateModel {
    pub phase: Phase,
    pub deadline: u64,
    pub last_poll: u64,
    pub last_level: Level,
    pub since: u64,
    pub release_ms: u64,
    pub press_ms: u64,
    pub long_hold: bool,
}

impl GateModel {
    /// The current level has been held since no later than the last poll.
    pub open spec fn wf(self) -> bool {
        self.since <= self.last_poll
    }

    /// A stable sample moves the gesture forward: an initial release arms it,
    /// a press approves it (or, for a long hold, waits for the final release),
    /// and the final release approves a long hold.
    pub open spec fn advance(self, level: Level, stable: int) -> (GateModel, Option<bool>) {
        if self.phase == Phase::InitialRelease && level == Level::Released && stable
            >= self.release_ms {
            (GateModel { phase: Phase::AwaitPress, ..self }, None)
        } else if self.phase == Phase::AwaitPress && level == Level::Pressed && stable
            >= self.press_ms {
            if self.long_hold {
                (GateModel { phase: Phase::FinalRelease, ..self }, None)
            } else {
                (GateModel { phase: Phase::Finished, ..self }, Some(true))
            }
        } else if self.phase == Phase::FinalRelease && level == Level::Released && stable
            >= self.release_ms {
            (GateModel { phase: Phase::Finished, ..self }, Some(true))
        } else {
            (self, None)
        }
    }

    /// One poll: cancellation, timeout, a clock running backwards, a finished
    /// gesture and an input fault all end the gesture with a refusal; a
    /// missing sample waits; noise restarts a final release.
    pub open spec fn poll(self, sample: Option<Level>, now: u64, cancelled: bool) -> (
        GateModel,
        Option<bool>,
    ) {
        if cancelled || now < self.last_poll || now >= self.deadline || self.phase
            == Phase::Finished {
            (GateModel { phase: Phase::Finished, ..self }, Some(false))
        } else {
            let s1 = GateModel { last_poll: now, ..self };
            match sample {
                None => (s1, None),
                Some(level) => if level == Level::Fault {
                    (GateModel { phase: Phase::Finished, ..s1 }, Some(false))
                } else {
                    let s2 = if level != s1.last_level {
                        GateModel { last_level: level, since: now, ..s1 }
                    } else {
                        s1
                    };
                    if level == Level::Uncertain {
                        if s2.phase == Phase::FinalRelease {
                            (GateModel { phase: Phase::InitialRelease, ..s2 }, None)
                        } else {
                            (s2, None)
                        }
                    } else {
                        s2.advance(level, now - s2.since)
                    }
                },
            }
        }
    }
}

impl View for PresenceGate {
    type V = GateModel;

    closed spec fn view(&self) -> GateModel {
        GateModel {
            phase: self.phase,
            deadline: self.deadline,
            last_poll: self.last_poll,
            last_level: self.last_level,
            since: self.since,
            release_ms: self.release_ms,
            press_ms: self.press_ms,
            long_hold: self.long_hold,
        }
    }
}

impl PresenceGate {
    /// The gesture has seen its initial release and waits for the press.
    pub fn ready_for_action(&self) -> (r: bool)
        ensures
            r == (self@.phase == Phase::AwaitPress),
    {
        matches!(self.phase, Phase::AwaitPress)
    }

    /// A gesture that must finish before `now + timeout_ms`; a long hold needs
    /// the press kept for five seconds and a final release.
    pub fn new(now: u64, timeout_ms: u64, long_hold: bool) -> (r: Self)
        ensures
            r@ == (GateModel {
                phase: Phase::InitialRelease,
                deadline: now.saturating_add(timeout_ms),
                last_poll: now,
                last_level: Level::Uncertain,
                since: now,
                release_ms: 30,
                press_ms: if long_hold {
                    5_000
                } else {
                    30
                },
                long_hold,
            }),
            r@.wf(),
    {
        Self {
            phase: Phase::InitialRelease,
            deadline: now.saturating_add(timeout_ms),
            last_poll: now,
            last_level: Level::Uncertain,
            since: now,
            release_ms: 30,
            press_ms: if long_hold {
                5_000
            } else {
                30
            },
            long_hold,
        }
    }

    /// A missing sample may wait, but cannot advance a gesture. The input
    /// adapter must report Fault when conversions become stale. Cancellation
    /// and timeout win even when the same poll contains a valid final sample.
    pub fn poll(&mut self, sample: Option<Level>, now: u64, cancelled: bool) -> (r: Option<bool>)
        requires
            old(self)@.wf(),
        ensures
            final(self)@ == old(self)@.poll(sample, now, cancelled).0,
            r == old(self)@.poll(sample, now, cancelled).1,
            final(self)@.wf(),
    {
        if cancelled || now < self.last_poll || now >= self.deadline || self.phase
            == Phase::Finished {
            self.phase = Phase::Finished;
            return Some(false);
        }
        self.last_poll = now;
        let level = match sample {
            Some(level) => level,
            None => return None,
        };
        if level == Level::Fault {
            self.phase = Phase::Finished;
            return Some(false);
        }
        if level != self.last_level {
            self.last_level = level;
            self.since = now;
        }
        if level == Level::Uncertain {
            if self.phase == Phase::FinalRelease {
                self.phase = Phase::InitialRelease;
            }
            return None;
        }
        let stable = now - self.since;
        if self.phase == Phase::InitialRelease && level == Level::Released && stable
            >= self.release_ms {
            self.phase = Phase::AwaitPress;
        } else if self.phase == Phase::AwaitPress && level == Level::Pressed && stable
            >= self.press_ms {
            if self.long_hold {
                self.phase = Phase::FinalRelease;
            } else {
                self.phase = Phase::Finished;
                return Some(true);
            }
        } else if self.phase == Phase::FinalRelease && level == Level::Released && stable
            >= self.release_ms {
            self.phase = Phase::Finished;
            return Some(true);
        }
        None
    }
}

/// A finished gesture refuses every later poll and stays finished.
pub proof fn lemma_finished_is_final(s: GateModel, sample: Option<Level>, now: u64, cancelled: bool)
    requires
        s.phase == Phase::Finished,
    ensures
        s.poll(sample, now, cancelled).1 == Some(false),
        s.poll(sample, now, cancelled).0.phase == Phase::Finished,
{
}

/// Cancellation, the deadline, a clock running backwards and an input fault
/// each end the gesture with a refusal.
pub proof fn lemma_failures_refuse(s: GateModel, sample: Option<Level>, now: u64, cancelled: bool)
    requires
        cancelled || now >= s.deadline || now < s.last_poll || sample == Some(Level::Fault),
    ensures
        s.poll(sample, now, cancelled).1 == Some(false),
        s.poll(sample, now, cancelled).0.phase == Phase::Finished,
{
}

/// Approval comes only from a definite sample: a stable press awaited after
/// the initial release (short gesture), or the final release of a long hold.
/// Approval finishes the gesture, so it is given at most once.
pub proof fn lemma_approval_needs_fresh_gesture(
    s: GateModel,
    sample: Option<Level>,
    now: u64,
    cancelled: bool,
)
    ensures
        s.poll(sample, now, cancelled).1 == Some(true) ==> {
            &&& !cancelled
            &&& now < s.deadline
            &&& s.poll(sample, now, cancelled).0.phase == Phase::Finished
            &&& (s.phase == Phase::AwaitPress && !s.long_hold && sample == Some(Level::Pressed))
                || (s.phase == Phase::FinalRelease && sample == Some(Level::Released))
        },
{
}

/// Noise and missing conversions never approve.
pub proof fn lemma_noise_never_approves(s: GateModel, now: u64, cancelled: bool)
    ensures
        s.poll(None, now, cancelled).1 != Some(true),
        s.poll(Some(Level::Uncertain), now, cancelled).1 != Some(true),
{
}


/// Noise during the final release of a long hold restarts the gesture: an
/// uncertain sample, while the gesture is live, sends it back to its initial
/// release without an answer, so a new release, hold and release are needed
/// before approval.
pub proof fn lemma_noise_restarts_final_release(s: GateModel, now: u64)
    requires
        s.phase == Phase::FinalRelease,
        s.last_poll <= now < s.deadline,
    ensures
        s.poll(Some(Level::Uncertain), now, false).0.phase == Phase::InitialRelease,
        s.poll(Some(Level::Uncertain), now, false).1 is None,
{
}

} // verus!
