//! Platform state machines and layout rules that need no hardware access.

pub mod attestation_import;
pub mod flash_encryption;
pub mod maintenance_presence;
pub mod memory_protection;
pub mod ota;
pub mod presence_gate;
pub mod provisioning;
pub mod rng_health;
pub mod security_epoch;
pub mod security_epoch_maintenance;
pub mod security_epoch_plan;
pub mod security_epoch_preview;
pub mod security_epoch_transaction;
pub mod security_status;
pub mod storage_layout;
pub mod usb_update;
pub mod user_presence;
