[package]
name = "salpa"
version = "0.1.0"
edition = "2021"
publish = false

[dependencies]
zeroize = "=1.9.1"
usb-device = "=0.3.2"
usbd-hid = "=0.8.2"
ctap-types = "=0.5.0"
fido-authenticator = "=0.3.0"
sha2 = "=0.10.9"
