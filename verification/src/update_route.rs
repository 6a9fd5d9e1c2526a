//! Which service answers a request in the update namespace, and when the
//! updater is asked again with fresh presence.

use vstd::prelude::*;
use crate::platform::memory_protection;
use crate::platform::security_status;
use crate::usb_update::StatusCode;

verus! {

/// The service that answers an update-namespace request.
#[derive(Clone, Copy, Debug, PartialEq, Eq, Structural)]
pub enum UpdateRoute {
    /// A security-epoch handler recognised the request and answered it.
    SecurityEpoch,
    /// The memory-protection status report.
    MemoryProtection,
    /// The security status report.
    SecurityStatus,
    /// The updater, first without fresh presence.
    Updater,
}

/// The route of `request`: a request a security-epoch handler answered stays
/// with it; otherwise the one-byte memory-protection request gets the status
/// report where that report is enabled, the one-byte security-status request
/// gets the security status, and everything else goes to the updater.
pub open spec fn update_route(
    request: Seq<u8>,
    epoch_answered: bool,
    memory_protection_report: bool,
) -> UpdateRoute {
    if epoch_answered {
        UpdateRoute::SecurityEpoch
    } else if memory_protection_report && request == seq![memory_protection::REQUEST] {
        UpdateRoute::MemoryProtection
    } else if request == seq![security_status::REQUEST] {
        UpdateRoute::SecurityStatus
    } else {
        UpdateRoute::Updater
    }
}

/// Routes an update-namespace request (`update_route`).
pub fn route_update_request(
    request: &[u8],
    epoch_answered: bool,
    memory_protection_report: bool,
) -> (r: UpdateRoute)
    ensures
        r == update_route(request@, epoch_answered, memory_protection_report),
{
    if epoch_answered {
        UpdateRoute::SecurityEpoch
    } else if memory_protection_report && request.len() == 1 && request[0]
        == memory_protection::REQUEST {
        assert(request@ =~= seq![memory_protection::REQUEST]);
        UpdateRoute::MemoryProtection
    } else if request.len() == 1 && request[0] == security_status::REQUEST {
        assert(request@ =~= seq![security_status::REQUEST]);
        UpdateRoute::SecurityStatus
    } else {
        proof {
            if request@ == seq![security_status::REQUEST] {
                assert(request@[0] == security_status::REQUEST);
            }
            if request@ == seq![memory_protection::REQUEST] {
                assert(request@[0] == memory_protection::REQUEST);
            }
        }
        UpdateRoute::Updater
    }
}

/// Whether the updater's answer asks for fresh presence: its status byte is
/// `UserPresenceRequired`. Only then is the user asked, and only on their
/// confirmation is the request served again with presence.
pub fn asks_for_presence(response: &[u8]) -> (r: bool)
    ensures
        r == (response@.len() > 0 && response@[0]
            == StatusCode::UserPresenceRequired.spec_number()),
{
    response.len() > 0 && response[0] == StatusCode::UserPresenceRequired.number()
}

} // verus!
