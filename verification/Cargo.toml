[package]
name = "crouchkick"
version = "2.0.0"
edition = "2021"
publish = false

[dependencies]
log = "0.4"
retour = "0.3"
rrplug = "4.3"
winapi = { version = "0.3", features = ["libloaderapi"] }
