//! Build identities used to distinguish signed A/B acceptance images.

use vstd::prelude::*;

verus! {

/// The application version recorded in the image descriptor.
pub const APP_VERSION: &'static str = "0.1.0";

/// Patch level of the firmware version reported to hosts.
pub const FIRMWARE_PATCH: usize = 0;

/// The normal image confirms a signed update after its first successful
/// request.
pub const CONFIRM_SIGNED_UPDATE: bool = true;

} // verus!
