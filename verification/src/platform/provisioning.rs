//! Physical confirmation state for destructive storage provisioning.

use vstd::prelude::*;

verus! {

#[derive(Clone, Copy, Debug, PartialEq, Eq)]
pub struct ProvisioningGesture {
    required_hold_ms: u64,
    release_seen: bool,
    pressed_since_ms: Option<u64>,
}

/// The abstract state of the gesture.
pub struct GestureModel {
    pub required_hold_ms: u64,
    pub release_seen: bool,
    pub pressed_since_ms: Option<u64>,
}

impl GestureModel {
    /// The state after a sample, and whether the gesture is complete.
    pub open spec fn sample(self, pressed: bool, now_ms: u64) -> (GestureModel, bool) {
        if !pressed {
            (GestureModel { release_seen: true, pressed_since_ms: None, ..self }, false)
        } else if !self.release_seen {
            (self, false)
        } else {
            let since = match self.pressed_since_ms {
                Some(since) => since,
                None => now_ms,
            };
            (
                GestureModel { pressed_since_ms: Some(since), ..self },
                now_ms.saturating_sub(since) >= self.required_hold_ms,
            )
        }
    }
}

impl View for ProvisioningGesture {
    type V = GestureModel;

    closed spec fn view(&self) -> GestureModel {
        GestureModel {
            required_hold_ms: self.required_hold_ms,
            release_seen: self.release_seen,
            pressed_since_ms: self.pressed_since_ms,
        }
    }
}

impl ProvisioningGesture {
    pub fn new(required_hold_ms: u64) -> (r: Self)
        ensures
            r@ == (GestureModel { required_hold_ms, release_seen: false, pressed_since_ms: None }),
    {
        Self { required_hold_ms, release_seen: false, pressed_since_ms: None }
    }

    /// Returns true only after a post-boot release and a continuous hold.
    pub fn sample(&mut self, pressed: bool, now_ms: u64) -> (r: bool)
        ensures
            final(self)@ == old(self)@.sample(pressed, now_ms).0,
            r == old(self)@.sample(pressed, now_ms).1,
    {
        if !pressed {
            self.release_seen = true;
            self.pressed_since_ms = None;
            return false;
        }
        if !self.release_seen {
            return false;
        }
        let pressed_since_ms = match self.pressed_since_ms {
            Some(since) => since,
            None => {
                self.pressed_since_ms = Some(now_ms);
                now_ms
            },
        };
        now_ms.saturating_sub(pressed_since_ms) >= self.required_hold_ms
    }
}

/// A button already held at boot confirms nothing until it has been released.
pub proof fn lemma_no_confirmation_before_release(s: GestureModel, pressed: bool, now_ms: u64)
    requires
        !s.release_seen,
    ensures
        !s.sample(pressed, now_ms).1,
{
}

/// A confirmation needs the button pressed, a release seen since boot, and a
/// hold of the required length since the press began; releasing restarts the
/// hold.
pub proof fn lemma_confirmation_needs_continuous_hold(s: GestureModel, pressed: bool, now_ms: u64)
    ensures
        s.sample(pressed, now_ms).1 ==> pressed && s.release_seen && (s.sample(
            pressed,
            now_ms,
        ).0.pressed_since_ms matches Some(since) && now_ms.saturating_sub(since) >= s.required_hold_ms),
        !pressed ==> s.sample(pressed, now_ms).0.pressed_since_ms is None,
{
}

} // verus!
