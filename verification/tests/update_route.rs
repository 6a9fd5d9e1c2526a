use salpa::platform::memory_protection;
use salpa::platform::security_status;
use salpa::update_route::{UpdateRoute, asks_for_presence, route_update_request};
use salpa::usb_update::StatusCode;

#[test]
fn epoch_answer_takes_precedence() {
    assert_eq!(
        route_update_request(&[memory_protection::REQUEST], true, true),
        UpdateRoute::SecurityEpoch
    );
}

#[test]
fn memory_protection_report_only_where_enabled() {
    assert_eq!(
        route_update_request(&[memory_protection::REQUEST], false, true),
        UpdateRoute::MemoryProtection
    );
    assert_eq!(
        route_update_request(&[memory_protection::REQUEST], false, false),
        UpdateRoute::Updater
    );
}

#[test]
fn security_status_request_is_one_byte() {
    assert_eq!(
        route_update_request(&[security_status::REQUEST], false, false),
        UpdateRoute::SecurityStatus
    );
    assert_eq!(
        route_update_request(&[security_status::REQUEST, 0], false, false),
        UpdateRoute::Updater
    );
    assert_eq!(route_update_request(&[], false, true), UpdateRoute::Updater);
}

#[test]
fn presence_is_asked_only_for_its_status() {
    assert!(asks_for_presence(&[StatusCode::UserPresenceRequired.number(), 1, 2]));
    assert!(!asks_for_presence(&[StatusCode::Success.number()]));
    assert!(!asks_for_presence(&[]));
}
