//! Error taxonomy shared by every stage of the pipeline.

use vstd::prelude::*;
use vstd::string::*;
use crate::decimal::{spec_dec_digits, u64_to_string};

verus! {

/// Errors raised by configuration checks, the pixel codec, the frame
/// channel and the whole-file pipeline. Each variant carries a
/// human-readable detail message.
#[derive(Debug, Clone)]
pub enum F2V2FError {
    Io(String),
    ImageError(String),
    VideoError(String),
    EncodingError(String),
    DecodingError(String),
    ConfigError(String),
    /// Checksum mismatch: detail, expected digest, actual digest.
    IntegrityError(String, String, String),
    Interrupted(String),
    OutOfMemory(String),
    InvalidInput(String),
    Timeout(String),
    ValidationFailed(String),
    Unknown(String),
}

/// Context attached to failures while streaming frames.
#[derive(Debug, Clone)]
pub struct ErrorContext {
    pub file_offset: u64,
    pub frame_number: u64,
    pub operation: String,
}

/// How an `ErrorContext` reads when reported.
pub open spec fn spec_error_context_message(
    operation: Seq<char>,
    frame_number: int,
    file_offset: int,
) -> Seq<char> {
    "Operation: "@ + operation + ", Frame: "@ + spec_dec_digits(frame_number)
        + ", File Offset: "@ + spec_dec_digits(file_offset) + " bytes"@
}

impl ErrorContext {
    /// Word the context for a report.
    pub fn describe(&self) -> (s: String)
        ensures
            s@ == spec_error_context_message(
                self.operation@,
                self.frame_number as int,
                self.file_offset as int,
            ),
    {
        let mut s = String::from_str("Operation: ");
        s.append(self.operation.as_str());
        s.append(", Frame: ");
        let frame = u64_to_string(self.frame_number);
        s.append(frame.as_str());
        s.append(", File Offset: ");
        let offset = u64_to_string(self.file_offset);
        s.append(offset.as_str());
        s.append(" bytes");
        proof {
            assert(s@ =~= spec_error_context_message(
                self.operation@,
                self.frame_number as int,
                self.file_offset as int,
            ));
        }
        s
    }
}

} // verus!
