# Salpa

Salpa is the transport, update and policy core of a USB FIDO2 security key
for the ESP32-S2. This crate holds the parts that decide things, each with a
Verus contract and proof:

- `ctaphid`: the CTAPHID framing engine (channels, fragmentation, keepalive,
  cancellation, timeouts), modelled by `HidModel`.
- `request_completion`, `get_info`: how application replies are completed at
  the USB boundary, and the bring-up GetInfo dispatcher over `ctap-types`.
- `usb_update`: the signed A/B update protocol (fresh presence, inactive-slot
  writes, read-back hash, signature and layout checks before activation) and
  the installed-image verifier.
- `identity`, `usb_identity`, `image_version`, `build_environment`: identity
  values, the host-visible USB identity, and build-input aliases.
- `platform`: A/B metadata, flash-encryption mappings, SRAM permissions, the
  security-epoch plan, preview and programming transaction, presence
  gestures, storage layout, attestation staging and RNG sanity checks.
- `bytes`, `sha256`: byte encodings, buffer clearing through `zeroize`, and
  SHA-256 through `sha2`.

`app/` holds the adapters that need hardware or host services: the USB HID
device, the authenticator configuration and the build-script readers.

The tests under `tests/` run the library against the real outside crates.
