//! Configuration of encode and decode runs: validated value objects and
//! the `WIDTHxHEIGHT` resolution parser.

use vstd::prelude::*;
use vstd::string::*;
use crate::decimal::{all_dec_digits, parse_u64_digits, spec_digits_val};
use crate::error::F2V2FError;

verus! {

/// Configuration of an encode run.
#[derive(Debug, Clone)]
pub struct EncodeConfig {
    /// Frame width in pixels.
    pub width: u32,
    /// Frame height in pixels.
    pub height: u32,
    /// Frames per second of the produced video.
    pub fps: u32,
    /// Payload bytes carried per frame.
    pub chunk_size: usize,
    /// Name of the frame art style.
    pub art_style: String,
    /// Worker threads available to the run.
    pub num_threads: usize,
    /// Buffer size for reading the input file.
    pub buffer_size: usize,
    /// Compress the payload before chunking?
    pub use_compression: bool,
    /// Compression level handed to the compressor.
    pub compression_level: i32,
}

/// Configuration of a decode run.
#[derive(Debug, Clone)]
pub struct DecodeConfig {
    /// Frame width in pixels; must match the encode run.
    pub width: u32,
    /// Frame height in pixels; must match the encode run.
    pub height: u32,
    /// Fallback chunk size when no sidecar metadata is found.
    pub chunk_size: usize,
    /// Worker threads available to the run.
    pub num_threads: usize,
    /// Buffer size for processing.
    pub buffer_size: usize,
    /// Compare the decode-time checksum against an expected one?
    pub verify_checksum: bool,
}

/// What `EncodeConfig::validate` accepts.
pub open spec fn spec_encode_config_valid(c: &EncodeConfig) -> bool {
    &&& 1 <= c.fps <= 120
    &&& 0 < c.chunk_size <= 10485760
    &&& c.num_threads >= 1
}

/// What `DecodeConfig::validate` accepts.
pub open spec fn spec_decode_config_valid(c: &DecodeConfig) -> bool {
    c.num_threads >= 1
}

/// Index of the first `'x'` in `s` at or after `i`, or the length of
/// `s` when there is none.
pub open spec fn first_x(s: Seq<char>, i: int) -> int
    decreases s.len() - i when 0 <= i <= s.len()
{
    if i >= s.len() {
        s.len() as int
    } else if s[i] == 'x' {
        i
    } else {
        first_x(s, i + 1)
    }
}

/// The resolution a string denotes: exactly one `'x'` between two
/// decimal numbers, the width within 256..=7680 and the height within
/// 256..=4320.
pub open spec fn spec_parse_resolution(s: Seq<char>) -> Option<(int, int)> {
    let k = first_x(s, 0);
    if k == s.len() {
        None
    } else if first_x(s, k + 1) != s.len() {
        None
    } else {
        let left = s.subrange(0, k);
        let right = s.subrange(k + 1, s.len() as int);
        if left.len() > 0 && all_dec_digits(left) && spec_digits_val(left) <= u32::MAX
            && right.len() > 0 && all_dec_digits(right) && spec_digits_val(right) <= u32::MAX {
            let wv = spec_digits_val(left);
            let hv = spec_digits_val(right);
            if 256 <= wv <= 7680 && 256 <= hv <= 4320 {
                Some((wv, hv))
            } else {
                None
            }
        } else {
            None
        }
    }
}

/// Relies on num_cpus::get: the number of available CPUs of the current
/// system, documented to always be at least 1.
#[verifier::external_body]
fn available_threads() -> (n: usize)
    ensures
        1 <= n,
{
    num_cpus::get()
}

impl Default for EncodeConfig {
    /// Full-HD geometric frames, 4 KiB chunks, compression on.
    fn default() -> (c: EncodeConfig)
        ensures
            c.width == 1920,
            c.height == 1080,
            c.fps == 30,
            c.chunk_size == 4096,
            c.art_style@ == "geometric"@,
            c.num_threads >= 1,
            c.buffer_size == 1048576,
            c.use_compression == true,
            c.compression_level == 11,
            spec_encode_config_valid(&c),
    {
        EncodeConfig {
            width: 1920,
            height: 1080,
            fps: 30,
            chunk_size: 4096,
            art_style: String::from_str("geometric"),
            num_threads: available_threads(),
            buffer_size: 1048576,
            use_compression: true,
            compression_level: 11,
        }
    }
}

impl Default for DecodeConfig {
    /// Full-HD geometry, 4 KiB fallback chunks, checksum verification on.
    fn default() -> (c: DecodeConfig)
        ensures
            c.width == 1920,
            c.height == 1080,
            c.chunk_size == 4096,
            c.num_threads >= 1,
            c.buffer_size == 1048576,
            c.verify_checksum == true,
            spec_decode_config_valid(&c),
    {
        DecodeConfig {
            width: 1920,
            height: 1080,
            chunk_size: 4096,
            num_threads: available_threads(),
            buffer_size: 1048576,
            verify_checksum: true,
        }
    }
}

impl EncodeConfig {
    /// Parse a `WIDTHxHEIGHT` resolution string.
    pub fn parse_resolution(resolution: &str) -> (r: Result<(u32, u32), F2V2FError>)
        ensures
            r is Ok <==> spec_parse_resolution(resolution@) is Some,
            r is Ok ==> {
                &&& r->Ok_0.0 as int == spec_parse_resolution(resolution@)->Some_0.0
                &&& r->Ok_0.1 as int == spec_parse_resolution(resolution@)->Some_0.1
            },
            r is Err ==> (r matches Err(F2V2FError::InvalidInput(_))),
    {
        let len = resolution.unicode_len();
        let mut k: usize = 0;
        while k < len && resolution.get_char(k) != 'x'
            invariant
                0 <= k <= len,
                len == resolution@.len(),
                first_x(resolution@, k as int) == first_x(resolution@, 0),
            decreases len - k,
        {
            k += 1;
        }
        if k == len {
            return Err(
                F2V2FError::InvalidInput(
                    String::from_str(
                        "Resolution must be in format WIDTHxHEIGHT (e.g., 1920x1080)",
                    ),
                ),
            );
        }
        let mut j: usize = k + 1;
        while j < len && resolution.get_char(j) != 'x'
            invariant
                k + 1 <= j <= len,
                len == resolution@.len(),
                first_x(resolution@, j as int) == first_x(resolution@, k + 1),
            decreases len - j,
        {
            j += 1;
        }
        if j != len {
            return Err(
                F2V2FError::InvalidInput(
                    String::from_str(
                        "Resolution must be in format WIDTHxHEIGHT (e.g., 1920x1080)",
                    ),
                ),
            );
        }
        let wv = match parse_u64_digits(resolution, 0, k) {
            Some(v) => v,
            None => {
                return Err(F2V2FError::InvalidInput(String::from_str("Invalid width")));
            },
        };
        if wv > 0xFFFF_FFFF {
            return Err(F2V2FError::InvalidInput(String::from_str("Invalid width")));
        }
        let hv = match parse_u64_digits(resolution, k + 1, len) {
            Some(v) => v,
            None => {
                return Err(F2V2FError::InvalidInput(String::from_str("Invalid height")));
            },
        };
        if hv > 0xFFFF_FFFF {
            return Err(F2V2FError::InvalidInput(String::from_str("Invalid height")));
        }
        if wv < 256 || hv < 256 {
            return Err(
                F2V2FError::InvalidInput(String::from_str("Minimum resolution is 256x256")),
            );
        }
        if wv > 7680 || hv > 4320 {
            return Err(
                F2V2FError::InvalidInput(
                    String::from_str("Maximum resolution is 7680x4320 (8K)"),
                ),
            );
        }
        Ok(((wv as u32), (hv as u32)))
    }

    /// Check the configured ranges: fps within 1..=120, chunk size
    /// within 1..=10485760 bytes, at least one thread.
    pub fn validate(&self) -> (r: Result<(), F2V2FError>)
        ensures
            r is Ok <==> spec_encode_config_valid(self),
            r is Err ==> (r matches Err(F2V2FError::ConfigError(_))),
    {
        if self.fps == 0 || self.fps > 120 {
            return Err(
                F2V2FError::ConfigError(String::from_str("FPS must be between 1 and 120")),
            );
        }
        if self.chunk_size == 0 || self.chunk_size > 10 * 1024 * 1024 {
            return Err(
                F2V2FError::ConfigError(
                    String::from_str("Chunk size must be between 1 and 10485760 bytes"),
                ),
            );
        }
        if self.num_threads == 0 {
            return Err(
                F2V2FError::ConfigError(
                    String::from_str("Number of threads must be at least 1"),
                ),
            );
        }
        Ok(())
    }
}

impl DecodeConfig {
    /// Check the configured ranges: at least one thread.
    pub fn validate(&self) -> (r: Result<(), F2V2FError>)
        ensures
            r is Ok <==> spec_decode_config_valid(self),
            r is Err ==> (r matches Err(F2V2FError::ConfigError(_))),
    {
        if self.num_threads == 0 {
            return Err(
                F2V2FError::ConfigError(
                    String::from_str("Number of threads must be at least 1"),
                ),
            );
        }
        Ok(())
    }
}

} // verus!
