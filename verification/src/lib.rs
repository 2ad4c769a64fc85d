//! Structural core of a pitch transposition engine for single-channel audio.
//!
//! The crate holds the parts of the engine that decide *where* samples go:
//! framing and overlap-add resynthesis, fractional-rate resampling, spectral
//! bin shifting, note lookup, the split of frames between workers and the
//! bookkeeping of capture and playback.  Every function is generic over the
//! sample type or works on integers, and each one is verified against its
//! contract.
pub mod audio;
pub mod config;
pub mod convert;
pub mod error;
pub mod framing;
pub mod notes;
pub mod resample;
pub mod single;
pub mod spectrum;
pub mod vocoder;
pub mod workers;

pub use framing::{frame, overlap_add};
pub use notes::find_index_of_nearest_to;
pub use resample::{sample_audio, Scale};
pub use spectrum::shift_amplitudes;
