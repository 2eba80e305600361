//! Verified core of a small audio engine: envelope stages, sample buffers
//! and their frame iteration, sample-level DSP, sample playback, the
//! play-handle mixer and the packet accumulation of the audio decoder.
#![allow(unused_imports)]

pub mod adsr;
pub mod timing;
pub mod sample_buffer;
pub mod dsp;
pub mod handles;
pub mod sample;
pub mod engine;
pub mod decoder;
pub mod frame;
pub mod instruments;
pub mod pattern;
