//! Driver core for a serial-connected 3D printer controller.
//!
//! The crate models the dialogue between a host and printer firmware as a
//! pure state machine: every transition takes the current state and one
//! event, and returns the next state together with a list of effect
//! descriptors (lines to send, delays to schedule, process control).  An
//! outer runner performs the effects; nothing in this crate does I/O.

pub mod config;
pub mod connecting;
pub mod feedback;
pub mod context;
pub mod gcode;
pub mod host;
pub mod laws;
pub mod ready;
pub mod response;
pub mod state;
pub mod message;
pub mod task;
pub mod text;

pub use config::BaudRate;
pub use config::ControllerConfig;
