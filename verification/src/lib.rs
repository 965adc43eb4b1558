//! Relay and decoder for the Growatt inverter telemetry protocol.
//!
//! The crate validates, decrypts and decodes binary telemetry frames,
//! maps frame headers to field layouts, and drives a byte-for-byte relay
//! between an inverter and its cloud endpoint.

use vstd::prelude::*;

pub mod codec;
pub mod dataprocessor;
pub mod layouts;
pub mod mqtt;
pub mod proxy;
pub mod rational;
pub mod sniffer;

verus! {

/// Errors raised while validating, decoding or relaying a frame.
#[derive(Clone, Copy, Debug, PartialEq, Eq, Structural)]
pub enum ProxyError {
    /// The declared body length does not match the actual body length.
    LengthMismatch,
    /// The trailing checksum does not match the checksum of the frame bytes.
    ChecksumMismatch,
    /// The frame is shorter than the minimum decodable size and is treated as an ACK.
    AckFrame,
    /// A text field did not hold valid UTF-8.
    EncodingError,
    /// A numeric field was configured with an unsupported byte width.
    InvalidFieldLength,
    /// The decoded output power exceeded the plausibility ceiling.
    PowerOutOfRange,
    /// A requested serial number was not found in the frame.
    SerialNotFound,
    /// A connection-level failure outside the decoding core.
    NetworkError,
}

impl ProxyError {
    /// A short human-readable description of the error.
    pub open spec fn spec_message(self) -> Seq<char> {
        match self {
            ProxyError::LengthMismatch => "data payload size mismatch"@,
            ProxyError::ChecksumMismatch => "crc mismatch"@,
            ProxyError::AckFrame => "frame too short (ack)"@,
            ProxyError::EncodingError => "text field is not valid utf-8"@,
            ProxyError::InvalidFieldLength => "invalid length for number"@,
            ProxyError::PowerOutOfRange => "invalid pv power value"@,
            ProxyError::SerialNotFound => "serial not found in data packet"@,
            ProxyError::NetworkError => "network error"@,
        }
    }

    /// Returns the description promised by [`Self::spec_message`].
    pub fn message(&self) -> (s: &'static str)
        ensures
            s@ == self.spec_message(),
    {
        match self {
            ProxyError::LengthMismatch => "data payload size mismatch",
            ProxyError::ChecksumMismatch => "crc mismatch",
            ProxyError::AckFrame => "frame too short (ack)",
            ProxyError::EncodingError => "text field is not valid utf-8",
            ProxyError::InvalidFieldLength => "invalid length for number",
            ProxyError::PowerOutOfRange => "invalid pv power value",
            ProxyError::SerialNotFound => "serial not found in data packet",
            ProxyError::NetworkError => "network error",
        }
    }
}

} // verus!
