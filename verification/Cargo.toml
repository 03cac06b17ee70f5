[package]
name = "keymachines"
version = "0.1.0"
edition = "2021"
publish = false

[dependencies]
bitmaps = "2"
typenum = "1"
libc = "0.2"
cfg-if = "1"
evdev-rs = "0.4"
