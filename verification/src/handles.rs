//! Opaque handles and status codes for a foreign-function boundary
//! around the encoder and decoder. The boundary itself — raw pointers,
//! C strings, a process-wide last-error slot — lives outside this crate;
//! these are the plain values it wraps.

use vstd::prelude::*;
use crate::config::EncodeConfig;
use crate::decoder::Decoder;
use crate::encoder::Encoder;

verus! {

/// Handle wrapping a configured encoder.
pub struct EncodeHandle {
    pub encoder: Encoder,
    pub config: EncodeConfig,
}

/// Handle wrapping a configured decoder.
pub struct DecodeHandle {
    pub decoder: Decoder,
}

/// Status reported across the foreign-function boundary.
#[derive(Debug, Clone, Copy, PartialEq, Eq, Structural)]
pub enum F2V2FErrorCode {
    Success,
    InvalidInput,
    IoError,
    EncodingError,
    DecodingError,
    ConfigError,
    OperationInProgress,
    InvalidHandle,
    Unknown,
}

impl F2V2FErrorCode {
    /// The integer each status is reported as.
    pub fn code(&self) -> (r: i32)
        ensures
            r == match self {
                F2V2FErrorCode::Success => 0int,
                F2V2FErrorCode::InvalidInput => 1int,
                F2V2FErrorCode::IoError => 2int,
                F2V2FErrorCode::EncodingError => 3int,
                F2V2FErrorCode::DecodingError => 4int,
                F2V2FErrorCode::ConfigError => 5int,
                F2V2FErrorCode::OperationInProgress => 6int,
                F2V2FErrorCode::InvalidHandle => 7int,
                F2V2FErrorCode::Unknown => 255int,
            },
    {
        match self {
            F2V2FErrorCode::Success => 0,
            F2V2FErrorCode::InvalidInput => 1,
            F2V2FErrorCode::IoError => 2,
            F2V2FErrorCode::EncodingError => 3,
            F2V2FErrorCode::DecodingError => 4,
            F2V2FErrorCode::ConfigError => 5,
            F2V2FErrorCode::OperationInProgress => 6,
            F2V2FErrorCode::InvalidHandle => 7,
            F2V2FErrorCode::Unknown => 255,
        }
    }
}

} // verus!
