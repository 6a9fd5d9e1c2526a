//! Salpa: USB FIDO2 security-key transport, update and policy logic.
//!
//! The library holds the CTAPHID message framing engine, the rules that
//! complete application replies at the USB boundary, the bring-up GetInfo
//! dispatcher, the development identity helpers and the host-visible USB
//! identity policy; the signed A/B update protocol with its installed-image
//! verifier and the routing of update-namespace requests; and the platform
//! rules that need no hardware access: A/B metadata, flash-encryption
//! mappings, SRAM permission policy, the security-epoch plan, preview and
//! one-shot programming transaction, the presence gestures, storage layout,
//! attestation staging and RNG sanity checks. The library is verified with
//! Verus; the calls into `sha2`, `zeroize` and `ctap-types` stand behind a few
//! trusted wrappers whose contracts state what those crates do.

pub mod build_environment;
pub mod bytes;
pub mod ctaphid;
pub mod get_info;
pub mod identity;
pub mod image_version;
pub mod platform;
pub mod request_completion;
pub mod sha256;
pub mod update_route;
pub mod usb_identity;
pub mod usb_update;
