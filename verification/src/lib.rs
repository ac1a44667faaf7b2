//! Audio-level turn latency benchmarking for voice agents.
//!
//! The microphone and the system's audio output are captured on one monotonic
//! clock. This library decides what was heard: it cuts both lanes into blocks of
//! activity, pairs the end of user speech with the onset of bot audio, follows
//! interruptions, and works out everything that is shown and exported. Devices,
//! files, sockets, windows and floating-point signal processing are the
//! caller's.

pub mod analysis;
pub mod app;
pub mod audio;
pub mod clock;
pub mod config;
pub mod export;
pub mod millis;
pub mod protocol;
pub mod scalar;
pub mod session;
pub mod text;
pub mod ui;
