//! Core library of a desktop transcription tool.
//!
//! The heart of the crate is the orchestration of external worker
//! processes: a line-delimited wire protocol between the worker and the
//! host, a registry of running jobs, and the controller that turns
//! decoded worker output into consumer-facing events.  Everything here
//! is verified; process spawning, file storage and the GUI shell live
//! in the unverified application layer around this crate.

pub mod models;
pub mod export;
pub mod ffmpeg;
pub mod file_handler;
pub mod protocol;
pub mod registry;
pub mod sidecar;
pub mod storage;
pub mod tray;
