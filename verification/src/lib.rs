//! State management and request dispatch for a GPU control service.
//!
//! The library owns the per-device settings, the store that remembers devices
//! across restarts, and the protocol state machine. It never touches the
//! hardware itself: readings come in as plain values and every write leaves as
//! a directive for the caller to perform.

pub mod attributes;
pub mod config;
pub mod daemon;
pub mod fan_curve;
pub mod gpu_controller;
pub mod hw_mon;
pub mod identifier;
pub mod msg;
pub mod reconcile;
pub mod text;
