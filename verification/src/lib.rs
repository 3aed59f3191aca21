//! Verified core of an audio-share patchbay for PipeWire.

pub mod capture_shim;
pub mod cmd;
pub mod config;
pub mod detect;
pub mod discord_capture;
pub mod error;
pub mod json;
pub mod listing;
pub mod models;
pub mod patchbay;
pub mod protocol;
pub mod pw_backend;
pub mod routes;
pub mod routing;
pub mod setup;
pub mod snapshot;
pub mod spike;
pub mod state;
pub mod state_native;
pub mod table;
pub mod text;
