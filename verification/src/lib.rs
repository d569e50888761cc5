//! Control plane of a WireGuard-based mesh network device: the text codec of
//! the WireGuard configuration protocol, the reducer that reconciles the
//! requested state with the live interface, and the state machine that the
//! device's public calls drive.

pub mod keys;
pub mod text;
pub mod ip;
pub mod time;
pub mod mesh;
pub mod config;
pub mod uapi;
pub mod parse;
pub mod cmd;
pub mod round_trip;
pub mod wg_controller;
pub mod forward;
pub mod device;
