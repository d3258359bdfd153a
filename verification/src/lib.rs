//! # Runpy
//!
//! The verified core of a Rust control plane for `uv`-managed Python worker
//! scripts: the envelope protocol and its reserved metadata, trusted
//! stamping at transport edges and length-prefixed frames; the logger's
//! filtering and rendering; runtime validation and the script index; worker
//! identities, builder configuration and launch plans; the worker registry;
//! and health reports read from `/proc`.

pub mod clock;
pub mod integrity;
pub mod json;
pub mod level;
pub mod manager;
pub mod output;
pub mod protocol;
pub mod registry;
pub mod scraping;
pub mod scribbler;
pub mod text;
pub mod watchdog;

pub use json::{Data, Meta};
pub use level::LogLevel;
pub use manager::{LaunchPlan, WorkerIdentity, WorkerSpec};
pub use protocol::{Envelope, EnvelopeError, ReadFailure};
pub use registry::{Admission, Registry};
pub use scribbler::Scribbler;
pub use watchdog::ProcessState;
