//! An in-memory audio model and mixing engine.
//!
//! Sound is represented as one or more channels of sampled amplitude data.
//! Amplitudes are IEEE-754 binary32 values carried by their bit patterns
//! (`u32` codes); the arithmetic on them is done in software through
//! `rustc_apfloat` behind a small set of trusted wrappers in [`codes`].
//!
//! Sources ([`sample::SineWave`], [`sample::WaveForm`]) produce mono
//! waveforms, [`sample::MultiChannel`] assembles mono samples into a
//! multi-channel sample, and [`sample::Composition`] mixes tracks scheduled
//! at arbitrary start offsets into one output. Effects ([`effect`]) map
//! samples to samples. The WAV container codec ([`wav`]) and the MP3 import
//! ([`mp3`]) connect the model to interchange formats.

#![verifier::loop_isolation(false)]

pub mod codes;
pub mod error;
pub mod sample;
pub mod effect;
pub mod wav;
pub mod mp3;
