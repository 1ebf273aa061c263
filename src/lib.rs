//! Listing of audio devices: which devices a host offers for capture and
//! playback, each with a per-listing position and a flag for the host's default.
//!
//! The host is read elsewhere; this library takes what was read (names, whether
//! a device could report a usable input configuration, the default device's
//! name) and decides what is listed and how.

pub mod index;
pub mod device;

pub use device::{
    CpalDeviceInfo, InputProbe, OutputProbe, has_valid_input_config, list_input_devices,
    list_output_devices,
};
