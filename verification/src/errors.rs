//! Error taxonomy of the library.
//!
//! Every fallible operation returns one of these typed errors; no verified
//! function panics on bad input.

use vstd::prelude::*;

verus! {

/// Construction-time error of the fingerprint engine: the transform size or
/// the frequency-band table is unusable.
#[derive(Clone, Copy, Debug, PartialEq, Eq, Structural)]
pub enum ConfigError {
    /// The window size is not a power of two, so no radix-2 transform of that
    /// exact size can be configured.
    WindowSize,
    /// The fuzz factor is zero, which would make quantization divide by zero.
    FuzzFactor,
    /// The band table is malformed: wrong band count, non-ascending
    /// boundaries, or a top boundary that does not fit the window or the
    /// positional weights of the encoding.
    BandTable,
}

/// Error while decoding compressed audio into mono samples. Unreadable
/// bytes are skipped by the frame decoder rather than reported, so the one
/// decode error is a frame without channels.
#[derive(Clone, Copy, Debug, PartialEq, Eq, Structural)]
pub enum DecodeError {
    /// The decoder reported a frame with no channels.
    InvalidChannels,
}

/// Error surfaced by a match repository backed by real storage.
#[derive(Debug)]
pub enum RepositoryError {
    /// A transport or storage failure, propagated unmodified to the caller.
    Storage(String),
}

/// Error of the stream listener control surface.
#[derive(Clone, Copy, Debug, PartialEq, Eq, Structural)]
pub enum ListenerError {
    /// `start` was called while the listener was already active; the caller
    /// must deactivate it first.
    Conflict,
    /// The stream URI did not parse as a valid URL.
    InvalidUri,
}

/// Error while resolving a playlist to a fetchable media URI.
#[derive(Clone, Copy, Debug, PartialEq, Eq, Structural)]
pub enum PlaylistError {
    /// The text did not parse as a playlist of the expected kind.
    WrongFormat,
    /// The master playlist has no variant with a usable URI.
    NoUsableVariant,
}

} // verus!
