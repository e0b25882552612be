//! Conversion orchestration engine for an external command-line transcoder.
//!
//! The crate maps a declarative conversion configuration to the exact
//! argument vector for the transcoder, resolves output paths (naming
//! pipeline plus conflict policy), parses the transcoder's diagnostic
//! stream for duration and progress, tracks in-flight jobs so they can
//! be cancelled and cleaned up, and classifies failures.

pub mod error;
pub mod ffmpeg;
pub mod naming;
pub mod orchestrate;
pub mod pathres;
pub mod probe;
pub mod quality;
pub mod state;
pub mod strutil;
pub mod thumbs;
pub mod types;
