//! Voice capture and transcription core.
//!
//! The crate verifies the heart of an always-on microphone pipeline: the
//! per-device voice-activity segmenter, the downmix-and-resample
//! normalizer, the transcription wire encoding, and the decision logic of
//! the interactive event loop.  Audio samples are carried as the raw bits
//! of IEEE-754 binary32 numbers and all amplitude arithmetic is done in
//! exact fixed-point integers, since Verus does not reason about machine
//! floats.  The few operations that must run on floats (the FFT resampler
//! of the rubato crate, the device drivers) are driven from the unverified
//! binary around this library.

use vstd::prelude::*;

pub mod chunk;
pub mod config;
pub mod hue;
pub mod normalize;
pub mod numfmt;
pub mod paths;
pub mod sample;
pub mod segmenter;
pub mod state;
pub mod transcription;

verus! {

/// Error kinds surfaced by the pipeline core.
#[derive(Debug, Clone, PartialEq, Eq)]
pub enum MicError {
    /// Device enumeration or open failed; the device is skipped.
    DeviceUnavailable,
    /// The device's native sample format is outside {s16, u16, f32}.
    UnsupportedFormat,
    /// The driver reported an in-stream error.
    CallbackError,
    /// A batch chunk failed the post-normalization invariants.
    InvalidFormat,
    /// The transcription request could not be transported.
    NetworkError,
    /// The transcription endpoint answered with a non-success status.
    RemoteRejected(u16),
    /// The transcription endpoint answered with a malformed body.
    ProtocolError,
    /// A result consumer failed; other consumers still run.
    ConsumerError,
}

impl MicError {
    /// A short stable name for each error kind, for log lines.
    pub fn label(&self) -> (r: &'static str)
        ensures
            self is DeviceUnavailable ==> r@ == "DeviceUnavailable"@,
            self is UnsupportedFormat ==> r@ == "UnsupportedFormat"@,
            self is CallbackError ==> r@ == "CallbackError"@,
            self is InvalidFormat ==> r@ == "InvalidFormat"@,
            self is NetworkError ==> r@ == "NetworkError"@,
            self is RemoteRejected ==> r@ == "RemoteRejected"@,
            self is ProtocolError ==> r@ == "ProtocolError"@,
            self is ConsumerError ==> r@ == "ConsumerError"@,
    {
        match self {
            MicError::DeviceUnavailable => "DeviceUnavailable",
            MicError::UnsupportedFormat => "UnsupportedFormat",
            MicError::CallbackError => "CallbackError",
            MicError::InvalidFormat => "InvalidFormat",
            MicError::NetworkError => "NetworkError",
            MicError::RemoteRejected(_) => "RemoteRejected",
            MicError::ProtocolError => "ProtocolError",
            MicError::ConsumerError => "ConsumerError",
        }
    }
}

} // verus!
