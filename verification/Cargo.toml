[package]
name = "rp235x"
version = "0.1.0"
edition = "2021"
publish = false

[dependencies]
claxon = "0.4"
cortex-m = "0.7"
critical-section = "1"
embedded-hal = "1"
embedded-sdmmc = { version = "0.9", default-features = false }
font8x8 = { version = "0.3", default-features = false }
hound = "3"
nanomp3 = "0.1"
rp235x-pac = "0.1"
smoltcp = { version = "0.9", default-features = false, features = ["medium-ethernet", "proto-ipv4", "proto-dhcpv4", "socket-dhcpv4", "socket-udp", "socket-tcp"] }
usb-device = "0.3"
usbd-serial = "0.2"
