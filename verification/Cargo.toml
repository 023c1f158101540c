[package]
name = "terminus_spaceport"
version = "0.1.0"
edition = "2021"
publish = false

[dependencies]
ctrlc = "3"
intrusive-collections = "0.9"
lazy_static = "1.4"
libc = "0.2"
termios = "0.3"
tun-tap = "0.1"
