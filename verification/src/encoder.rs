//! Whole-file encode orchestration: integrity checksum, optional
//! compression, and adaptive chunk sizing.

use vstd::prelude::*;
use vstd::string::*;
use vstd::arithmetic::div_mod::*;
use crate::arith::{ceil_div_usize, lemma_ceil_div_bounds, spec_ceil_div};
use crate::compress::{spec_has_zstd_magic, zstd_compress, zstd_decompressed};
use crate::config::{spec_encode_config_valid, EncodeConfig};
use crate::error::F2V2FError;
use crate::hashing::{checksum_hex, sha256_of, spec_hex_of};

verus! {

/// Cap on the number of frames an encode run produces; the chunk size
/// is raised as needed to stay under it.
pub const MAX_FRAMES: usize = 1000;

/// Encodes a file's bytes into chunk-sized frames worth of payload.
pub struct Encoder {
    pub config: EncodeConfig,
}

/// What an encode run reports back.
#[derive(Debug, Clone)]
pub struct EncodedFileInfo {
    /// Size of the raw input in bytes.
    pub original_file_size: u64,
    /// Lowercase hex SHA-256 digest of the raw input.
    pub checksum: String,
    /// Number of frames the payload fills.
    pub num_frames: u64,
    /// Chunk size actually used, after adaptive adjustment.
    pub chunk_size: usize,
    /// Name of the frame art style.
    pub art_style: String,
    /// Payload size after optional compression.
    pub encoded_size: u64,
    /// Original size over encoded size, in percent, saturating.
    pub compression_ratio_percent: u64,
}

/// Chunk size actually used: the configured one, raised just enough
/// that at most `MAX_FRAMES` frames are needed.
pub open spec fn spec_optimal_chunk_size(configured: int, encoded_size: int) -> int {
    let needed = spec_ceil_div(encoded_size, MAX_FRAMES as int);
    if needed > configured {
        needed
    } else {
        configured
    }
}

/// Original size over encoded size, in percent, saturating at u64::MAX.
pub open spec fn spec_ratio_percent(original: int, encoded: int) -> int {
    if encoded > 0 {
        let v = original * 100 / encoded;
        if v > u64::MAX {
            u64::MAX as int
        } else {
            v
        }
    } else {
        0
    }
}

/// The payload an encode run hands to the frame composer: the raw bytes
/// when compression is off, else a compressed stream that begins with
/// the magic and decodes back to the raw bytes.
pub open spec fn spec_payload_for(use_compression: bool, data: Seq<u8>, payload: Seq<u8>) -> bool {
    if use_compression {
        spec_has_zstd_magic(payload) && zstd_decompressed(payload) == Some(data)
    } else {
        payload == data
    }
}

/// Everything `EncodedFileInfo` promises about an encode of `data` that
/// produced `payload`.
pub open spec fn spec_info_for(
    config: &EncodeConfig,
    data: Seq<u8>,
    payload: Seq<u8>,
    info: &EncodedFileInfo,
) -> bool {
    &&& info.original_file_size == data.len()
    &&& info.checksum@ == spec_hex_of(sha256_of(data))
    &&& info.encoded_size == payload.len()
    &&& info.chunk_size as int == spec_optimal_chunk_size(
        config.chunk_size as int,
        payload.len() as int,
    )
    &&& info.num_frames as int == spec_ceil_div(payload.len() as int, info.chunk_size as int)
    &&& 1 <= info.num_frames <= MAX_FRAMES
    &&& info.art_style@ == config.art_style@
    &&& info.compression_ratio_percent as int == spec_ratio_percent(
        data.len() as int,
        payload.len() as int,
    )
}

/// Raising the chunk size to `spec_optimal_chunk_size` caps the frame
/// count at `MAX_FRAMES` without ever lowering the configured size.
pub proof fn lemma_chunk_cap(configured: int, e: int)
    requires
        configured >= 1,
        e >= 1,
    ensures
        spec_optimal_chunk_size(configured, e) >= configured,
        spec_ceil_div(e, spec_optimal_chunk_size(configured, e)) <= MAX_FRAMES as int,
{
    let needed = spec_ceil_div(e, 1000);
    let r = spec_optimal_chunk_size(configured, e);
    lemma_ceil_div_bounds(e, 1000);
    lemma_fundamental_div_mod(e + 999, 1000);
    assert(e <= 1000 * r);
    assert(e + r - 1 <= 1001 * r - 1);
    lemma_div_is_ordered(e + r - 1, 1001 * r - 1, r);
    assert(1001 * r - 1 == r * 1000 + (r - 1)) by (nonlinear_arith);
    lemma_div_multiples_vanish_fancy(1000, r - 1, r);
}

/// Exec form of `spec_optimal_chunk_size`.
pub fn optimal_chunk_size(configured: usize, encoded_size: usize) -> (r: usize)
    requires
        configured >= 1,
    ensures
        r as int == spec_optimal_chunk_size(configured as int, encoded_size as int),
        r >= configured,
{
    let needed = ceil_div_usize(encoded_size, MAX_FRAMES);
    if needed > configured {
        needed
    } else {
        configured
    }
}

impl Encoder {
    pub fn new(config: EncodeConfig) -> (r: Result<Encoder, F2V2FError>)
        ensures
            r is Ok <==> spec_encode_config_valid(&config),
            r is Ok ==> r->Ok_0.config == config,
            r is Err ==> (r matches Err(F2V2FError::ConfigError(_))),
    {
        match config.validate() {
            Ok(()) => Ok(Encoder { config }),
            Err(e) => Err(e),
        }
    }

    /// Prepare a file's bytes for composition: checksum them, compress
    /// them when configured to, and pick the chunk size. Empty input is
    /// rejected before any other work; a compressor failure surfaces as
    /// an I/O error.
    pub fn encode_payload(&self, file_data: &Vec<u8>) -> (r: Result<
        (EncodedFileInfo, Vec<u8>),
        F2V2FError,
    >)
        requires
            spec_encode_config_valid(&self.config),
        ensures
            (r matches Err(F2V2FError::InvalidInput(_))) <==> file_data@.len() == 0,
            !self.config.use_compression && file_data@.len() > 0 ==> r is Ok,
            r is Err ==> (r matches Err(F2V2FError::InvalidInput(_)) || r matches Err(
                F2V2FError::Io(_),
            )),
            r is Ok ==> {
                &&& file_data@.len() > 0
                &&& spec_payload_for(self.config.use_compression, file_data@, r->Ok_0.1@)
                &&& spec_info_for(&self.config, file_data@, r->Ok_0.1@, &r->Ok_0.0)
            },
    {
        if file_data.len() == 0 {
            return Err(F2V2FError::InvalidInput(String::from_str("Cannot encode empty files")));
        }
        let checksum = checksum_hex(file_data);
        let payload: Vec<u8> = if self.config.use_compression {
            match zstd_compress(file_data.as_slice(), self.config.compression_level) {
                Ok(v) => v,
                Err(msg) => {
                    return Err(F2V2FError::Io(msg));
                },
            }
        } else {
            let cloned_data = file_data.clone();
            proof {
                assert(cloned_data@ =~= file_data@);
            }
            cloned_data
        };
        let encoded_size = payload.len();
        let chunk_size = optimal_chunk_size(self.config.chunk_size, encoded_size);
        proof {
            lemma_chunk_cap(self.config.chunk_size as int, encoded_size as int);
        }
        let num_frames_usize = ceil_div_usize(encoded_size, chunk_size);
        let num_frames = num_frames_usize as u64;
        let original_size = file_data.len() as u64;
        let encoded_u64 = encoded_size as u64;
        let ratio_wide: u128 = (original_size as u128) * 100 / (encoded_u64 as u128);
        let compression_ratio_percent: u64 = if ratio_wide > 0xFFFF_FFFF_FFFF_FFFF {
            u64::MAX
        } else {
            ratio_wide as u64
        };
        let info = EncodedFileInfo {
            original_file_size: original_size,
            checksum,
            num_frames,
            chunk_size,
            art_style: self.config.art_style.clone(),
            encoded_size: encoded_u64,
            compression_ratio_percent,
        };
        Ok((info, payload))
    }

    /// Rough size of the video a file of `file_size` bytes will produce:
    /// compression is taken as shrinking to roughly three tenths, the
    /// frame count follows from the configured chunk size, and the video
    /// codec as halving the raw frame bytes.
    pub fn estimate_video_size(&self, file_size: u64) -> (r: u64)
        requires
            spec_encode_config_valid(&self.config),
            self.config.width <= 7680,
            self.config.height <= 4320,
        ensures
            r as int == {
                let compressed = if self.config.use_compression {
                    file_size as int * 3 / 10
                } else {
                    file_size as int
                };
                let frames = spec_ceil_div(compressed, self.config.chunk_size as int);
                let raw = frames * (self.config.width as int * self.config.height as int * 4);
                if raw / 2 > u64::MAX {
                    u64::MAX as int
                } else {
                    raw / 2
                }
            },
    {
        let compressed: u128 = if self.config.use_compression {
            let scaled = (file_size as u128) * 3;
            proof {
                lemma_div_nonincreasing(scaled as int, 10);
            }
            scaled / 10
        } else {
            file_size as u128
        };
        let cs = self.config.chunk_size as u128;
        let frames: u128 = (compressed + cs - 1) / cs;
        proof {
            lemma_div_nonincreasing((compressed + cs - 1) as int, cs as int);
            assert(frames < 0x80000000000000000);
        }
        let bw = self.config.width as u128;
        let bh = self.config.height as u128;
        proof {
            assert(bw * bh <= 33554432) by (nonlinear_arith)
                requires 0 <= bw <= 7680, 0 <= bh <= 4320;
        }
        let bytes_per_frame: u128 = bw * bh * 4;
        proof {
            assert(frames * bytes_per_frame < 0x800000000000000000000000) by (nonlinear_arith)
                requires 0 <= frames < 0x80000000000000000, 0 <= bytes_per_frame <= 0x10000000;
        }
        let raw: u128 = frames * bytes_per_frame;
        let estimated: u128 = raw / 2;
        if estimated > 0xFFFF_FFFF_FFFF_FFFF {
            u64::MAX
        } else {
            estimated as u64
        }
    }
}

} // verus!
