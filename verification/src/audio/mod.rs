//! Clips of captured audio and their playback.
pub mod audio_clip;
