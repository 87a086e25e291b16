//! An audio-identification engine: noise-resistant integer fingerprints are
//! computed from windowed spectral analysis of decoded audio, stored in a
//! voting match repository under song identifiers, and looked up again to
//! identify an unknown clip. A cancellable stream listener feeds decoded
//! sample chunks to the engine from a live source.

pub mod errors;
pub mod fingerprint;
pub mod helpers;
pub mod listener;
pub mod playlist;
pub mod repository;
pub mod samples;
pub mod tally;
