//! Core logic of a local push-to-talk voice-to-text tool: transcript cleanup,
//! performance profiles, the speech-model catalog, silence detection over
//! measured frames, and the decisions that drive recording and transcription.

pub mod perf;
pub mod text;
pub mod polish;
pub mod gpu;
pub mod models;
pub mod config;
pub mod session;
pub mod audio;
pub mod inject;
pub mod transcribe;
pub mod vad;
