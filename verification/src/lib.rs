//! Core of a media transcoding supervisor.
//!
//! The library models the pure heart of a tool that drives external
//! FFmpeg/FFprobe processes: the command-line argument model, the
//! progress-basis resolver, the line-oriented progress-stream parser, the
//! watchdog decision rules, the task lifecycle state machine and the keyed
//! task store.  All I/O (process spawning, stream reading, signalling,
//! event delivery) lives in the embedding application, which feeds the
//! outcomes of those effects into the functions here as plain values.

pub mod args;
pub mod config;
pub mod duration;
pub mod error;
pub mod message;
pub mod parser;
pub mod progress;
pub mod settings;
pub mod state_machine;
pub mod store;
pub mod strutil;
pub mod transcode;
pub mod watchdog;
