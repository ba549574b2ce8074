//! Core of a media download manager: a pure parser for the progress lines an
//! external download tool prints, a registry of download tasks whose progress
//! is monotone and clamps at completion, a router that drains per-task
//! progress channels into the registry, and the orchestration that ties a new
//! submission to a task, a channel and a command line for the external tool.
//!
//! Progress is measured in micro-units: `PROGRESS_ONE` (one million) stands
//! for a fully downloaded file, so that progress arithmetic is exact.

pub mod assets;
pub mod channel;
pub mod command;
pub mod laws;
pub mod model;
pub mod orchestrator;
pub mod progress;
pub mod registry;
pub mod router;
pub mod text;
pub mod thumbnail;
