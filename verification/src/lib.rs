//! Verified logic of a small RP2350 system: drivers, protocols and the shell,
//! written as functions on plain values so that the code that touches
//! registers stays a thin layer around them.

pub mod audio;
pub mod auxflash;
pub mod bench;
pub mod board;
pub mod command;
pub mod console;
pub mod dhcp;
pub mod dns;
pub mod ds1302;
pub mod errors;
pub mod fat;
pub mod flac;
pub mod flash;
pub mod gpio;
pub mod gspi;
pub mod http;
pub mod i2c;
pub mod i2s;
pub mod inet;
pub mod mailbox;
pub mod mp3;
pub mod net;
pub mod player;
pub mod portal;
pub mod pwm;
pub mod report;
pub mod ring;
pub mod romapi;
pub mod sdcard;
pub mod sdpcm;
pub mod shell;
pub mod slink;
pub mod st7789;
pub mod text;
pub mod uart;
pub mod update;
pub mod usb;
pub mod w5500;
pub mod words;
