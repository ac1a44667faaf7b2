//! What was heard, and what it means.

pub mod bins;
pub mod echo_gate;
pub mod edge_laws;
pub mod engine;
pub mod engine_laws;
pub mod events;
pub mod lane;
pub mod lane_laws;
pub mod pairing_laws;
pub mod rtvi;
pub mod segmenter;
pub mod segmenter_laws;
pub mod stats;
pub mod tick_laws;
pub mod timemap;
pub mod tint_laws;
pub mod turn_laws;
pub mod turns;
pub mod vad;
pub mod window_laws;
