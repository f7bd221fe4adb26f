//! Device and camera management for Android phones reached through adb and scrcpy:
//! the text scanning, device bookkeeping and decisions of the tool, with their contracts.

pub mod text;
pub mod devices;
pub mod scan;
pub mod select;
pub mod camera;
pub mod adb;
pub mod storage;
pub mod pairing;
