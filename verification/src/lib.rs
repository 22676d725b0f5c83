//! Block-based mono audio resampling by linear interpolation.
//!
//! Sample amplitudes, sample rates and the fractional playhead are exact
//! rational numbers, so every contract in this crate speaks of the
//! mathematical value a caller observes: the engine fills an output block
//! with the source interpolated at the positions `playhead + i * ratio`
//! and leaves the playhead one step past the last produced sample.

pub mod engine;
pub mod laws;
pub mod rational;

pub use engine::MonoFrame;
pub use engine::OutputAudio;
pub use engine::Resampler;
pub use engine::SourceAudio;
pub use rational::Rat;
