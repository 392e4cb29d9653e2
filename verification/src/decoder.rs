//! Whole-file decode orchestration: per-frame chunk recovery, padding
//! removal, compression auto-detection and the integrity checksum.
//!
//! The round trip through composition and decoding is proved in
//! `lemma_pipeline_round_trip`.

use vstd::prelude::*;
use vstd::string::*;
use vstd::arithmetic::div_mod::*;
use vstd::arithmetic::mul::lemma_mul_inequality;
use crate::arith::spec_ceil_div;
use crate::codec::{
    lemma_chunk_round_trip,
    spec_decode_chunk,
    spec_encode_chunk,
    valid_frame_dims,
    GeometricArtGenerator,
};
use crate::composer::{spec_frames_from_payload, spec_padded_chunk};
use crate::compress::{spec_has_zstd_magic, zstd_decompress, zstd_decompressed};
use crate::config::{spec_decode_config_valid, DecodeConfig};
use crate::encoder::spec_payload_for;
use crate::error::F2V2FError;
use crate::hashing::{checksum_hex, sha256_of, spec_hex_of, str_eq_chars};

verus! {

broadcast use
    vstd::arithmetic::div_mod::lemma_mod_bound,
    vstd::arithmetic::div_mod::lemma_div_pos_is_pos;

/// Decodes extracted video frames back to the original file bytes.
pub struct Decoder {
    pub config: DecodeConfig,
}

/// What a decode run reports back.
#[derive(Debug, Clone)]
pub struct DecodedFileInfo {
    /// Size of the reconstructed output in bytes.
    pub extracted_size: u64,
    /// Lowercase hex SHA-256 digest of the reconstructed output.
    pub checksum: String,
    /// Did the payload carry the compression magic?
    pub was_compressed: bool,
}

/// The bytes decoded from the first `n` frames, in frame order.
pub open spec fn spec_concat_decoded(
    frames: Seq<Seq<u8>>,
    chunk: int,
    w: int,
    h: int,
    n: nat,
) -> Seq<u8>
    decreases n,
{
    if n == 0 {
        Seq::empty()
    } else {
        spec_concat_decoded(frames, chunk, w, h, (n - 1) as nat) + spec_decode_chunk(
            frames[n - 1],
            chunk,
            w,
            h,
        )
    }
}

/// Concatenated decode output cut back to the recorded payload size,
/// which strips the zero padding of the final chunk. A zero recorded
/// size means the size is unknown and nothing is cut.
pub open spec fn spec_truncated(data: Seq<u8>, compressed_size: int) -> Seq<u8> {
    if compressed_size > 0 && data.len() > compressed_size {
        data.take(compressed_size)
    } else {
        data
    }
}

/// What the reassembled payload denotes: its own bytes, or, when it
/// carries the compression magic, the bytes it decompresses to.
pub open spec fn spec_recovered(payload: Seq<u8>) -> Option<Seq<u8>> {
    if spec_has_zstd_magic(payload) {
        zstd_decompressed(payload)
    } else {
        Some(payload)
    }
}

/// The payload zero-padded to a whole number of chunks.
pub open spec fn spec_zero_padded(payload: Seq<u8>, chunk: int) -> Seq<u8> {
    Seq::new(
        (spec_ceil_div(payload.len() as int, chunk) * chunk) as nat,
        |t: int| if t < payload.len() {
            payload[t]
        } else {
            0u8
        },
    )
}

impl Decoder {
    pub fn new(config: DecodeConfig) -> (r: Result<Decoder, F2V2FError>)
        ensures
            r is Ok <==> spec_decode_config_valid(&config),
            r is Ok ==> r->Ok_0.config == config,
            r is Err ==> (r matches Err(F2V2FError::ConfigError(_))),
    {
        match config.validate() {
            Ok(()) => Ok(Decoder { config }),
            Err(e) => Err(e),
        }
    }

    /// Does the data begin with the Zstandard stream magic?
    pub fn is_zstd_compressed(data: &[u8]) -> (r: bool)
        ensures
            r == spec_has_zstd_magic(data@),
    {
        let r = data.len() >= 4 && data[0] == 0x28 && data[1] == 0xB5 && data[2] == 0x2F
            && data[3] == 0xFD;
        proof {
            if r {
                assert(data@.subrange(0, 4) =~= crate::compress::spec_zstd_magic());
            } else {
                if data@.len() >= 4 {
                    assert(data@.subrange(0, 4)[0] == data@[0]);
                    assert(data@.subrange(0, 4)[1] == data@[1]);
                    assert(data@.subrange(0, 4)[2] == data@[2]);
                    assert(data@.subrange(0, 4)[3] == data@[3]);
                }
            }
        }
        r
    }

    /// Decode every extracted frame with the recorded chunk size,
    /// concatenate the chunks in frame order, and cut the result back to
    /// the recorded payload size.
    pub fn decode_frames(&self, frames: &Vec<Vec<u8>>, chunk_size: usize, compressed_size: u64) -> (r:
        Result<Vec<u8>, F2V2FError>)
        ensures
            r is Ok <==> (valid_frame_dims(self.config.width as int, self.config.height as int)
                && 0 < chunk_size <= self.config.width * self.config.height && (forall|k: int|
                0 <= k < frames@.len() ==> (#[trigger] frames@[k])@.len() == 4 * (
            self.config.width as int) * (self.config.height as int))),
            r is Ok ==> r->Ok_0@ == spec_truncated(
                spec_concat_decoded(
                    frames.deep_view(),
                    chunk_size as int,
                    self.config.width as int,
                    self.config.height as int,
                    frames@.len() as nat,
                ),
                compressed_size as int,
            ),
            (r matches Err(F2V2FError::ConfigError(_))) <==> (!valid_frame_dims(
                self.config.width as int,
                self.config.height as int,
            ) || chunk_size == 0 || chunk_size > self.config.width * self.config.height),
            (r matches Err(F2V2FError::DecodingError(_))) <==> (valid_frame_dims(
                self.config.width as int,
                self.config.height as int,
            ) && 0 < chunk_size <= self.config.width * self.config.height && (exists|k: int|
                0 <= k < frames@.len() && (#[trigger] frames@[k])@.len() != 4 * (
            self.config.width as int) * (self.config.height as int))),
    {
        if self.config.width == 0 || self.config.width > 7680 || self.config.height == 0
            || self.config.height > 4320 {
            return Err(
                F2V2FError::ConfigError(String::from_str("frame dimensions out of range")),
            );
        }
        let w: usize = self.config.width as usize;
        let h: usize = self.config.height as usize;
        proof {
            assert((w as int) * (h as int) <= 33177600) by (nonlinear_arith)
                requires 1 <= w as int <= 7680, 1 <= h as int <= 4320;
            assert(4 * (w as int) * (h as int) == 4 * ((w as int) * (h as int)))
                by (nonlinear_arith);
        }
        let n: usize = w * h;
        if chunk_size == 0 || chunk_size > n {
            return Err(
                F2V2FError::ConfigError(
                    String::from_str("chunk size must be nonzero and at most one byte per pixel"),
                ),
            );
        }
        let ghost gw = self.config.width as int;
        let ghost gh = self.config.height as int;
        let ghost gc = chunk_size as int;
        let generator = GeometricArtGenerator::new(self.config.width, self.config.height, 42);
        let mut all_data: Vec<u8> = Vec::new();
        let mut i: usize = 0;
        let frame_count = frames.len();
        while i < frame_count
            invariant
                valid_frame_dims(gw, gh),
                self.config.width == gw,
                self.config.height == gh,
                generator.width == gw,
                generator.height == gh,
                n == gw * gh,
                4 * gw * gh == 4 * n,
                0 < gc <= n,
                gc == chunk_size,
                frame_count == frames@.len(),
                i <= frame_count,
                forall|k: int| 0 <= k < i ==> (#[trigger] frames@[k])@.len() == 4 * gw * gh,
                all_data@ == spec_concat_decoded(
                    frames.deep_view(),
                    gc,
                    gw,
                    gh,
                    i as nat,
                ),
            decreases frame_count - i,
        {
            let frame = &frames[i];
            match generator.decode_from_image(frame, chunk_size) {
                Ok(mut chunk) => {
                    proof {
                        assert(frames.deep_view()[i as int] =~= frames@[i as int]@);
                    }
                    all_data.append(&mut chunk);
                },
                Err(e) => {
                    proof {
                        assert(frames@[i as int]@.len() != 4 * gw * gh);
                    }
                    return Err(
                        F2V2FError::DecodingError(
                            String::from_str("frame buffer has the wrong size"),
                        ),
                    );
                },
            }
            i += 1;
        }
        if compressed_size > 0 && (all_data.len() as u64) > compressed_size {
            all_data.truncate(compressed_size as usize);
        }
        Ok(all_data)
    }

    /// Undo the compression step of the reassembled payload: a payload
    /// that carries the compression magic is decompressed, anything else
    /// passes through unchanged. Reports the output size, its checksum
    /// and whether compression was detected.
    pub fn decode_payload(&self, payload: Vec<u8>) -> (r: Result<
        (Vec<u8>, DecodedFileInfo),
        F2V2FError,
    >)
        ensures
            r is Ok <==> spec_recovered(payload@) is Some,
            r is Ok ==> {
                &&& Some(r->Ok_0.0@) == spec_recovered(payload@)
                &&& r->Ok_0.1.was_compressed == spec_has_zstd_magic(payload@)
                &&& r->Ok_0.1.extracted_size == r->Ok_0.0@.len()
                &&& r->Ok_0.1.checksum@ == spec_hex_of(sha256_of(r->Ok_0.0@))
            },
            r is Err ==> (r matches Err(F2V2FError::Io(_))),
    {
        let was_compressed = Decoder::is_zstd_compressed(payload.as_slice());
        let final_data: Vec<u8> = if was_compressed {
            match zstd_decompress(payload.as_slice()) {
                Ok(v) => v,
                Err(msg) => {
                    return Err(F2V2FError::Io(msg));
                },
            }
        } else {
            payload
        };
        let checksum = checksum_hex(&final_data);
        let extracted_size = final_data.len() as u64;
        let info = DecodedFileInfo { extracted_size, checksum, was_compressed };
        Ok((final_data, info))
    }

    /// Does the data's checksum equal the expected digest string? The
    /// caller reads the file; comparison never fails on its own.
    pub fn verify_checksum(&self, data: &Vec<u8>, expected_checksum: &str) -> (r: Result<
        bool,
        F2V2FError,
    >)
        ensures
            r is Ok,
            r->Ok_0 == (spec_hex_of(sha256_of(data@)) == expected_checksum@),
    {
        let checksum = checksum_hex(data);
        Ok(str_eq_chars(checksum.as_str(), expected_checksum))
    }
}

/// Each zero-padded chunk is the matching slice of the zero-padded
/// payload.
proof fn lemma_padded_chunk_slice(payload: Seq<u8>, chunk: int, i: int)
    requires
        0 < chunk,
        0 < payload.len(),
        0 <= i < spec_ceil_div(payload.len() as int, chunk),
    ensures
        spec_padded_chunk(payload, chunk, i) == spec_zero_padded(payload, chunk).subrange(
            i * chunk,
            (i + 1) * chunk,
        ),
{
    let nc = spec_ceil_div(payload.len() as int, chunk);
    let padded = spec_zero_padded(payload, chunk);
    lemma_mul_inequality(i + 1, nc, chunk);
    assert((i + 1) * chunk == i * chunk + chunk) by (nonlinear_arith);
    assert(i * chunk >= 0) by (nonlinear_arith)
        requires i >= 0, chunk > 0;
    assert(spec_padded_chunk(payload, chunk, i) =~= padded.subrange(i * chunk, (i + 1) * chunk));
}

/// Decoding the first `m` frames of a payload's composition yields the
/// first `m` chunks' worth of the zero-padded payload.
proof fn lemma_concat_decoded_prefix(payload: Seq<u8>, chunk: int, w: int, h: int, m: nat)
    requires
        valid_frame_dims(w, h),
        0 < chunk <= w * h,
        0 < payload.len(),
        m <= spec_ceil_div(payload.len() as int, chunk),
    ensures
        spec_concat_decoded(
            spec_frames_from_payload(payload, chunk, w, h),
            chunk,
            w,
            h,
            m,
        ) == spec_zero_padded(payload, chunk).take(m * chunk),
    decreases m,
{
    let frames = spec_frames_from_payload(payload, chunk, w, h);
    let padded = spec_zero_padded(payload, chunk);
    let nc = spec_ceil_div(payload.len() as int, chunk);
    if m == 0 {
        assert(spec_concat_decoded(frames, chunk, w, h, 0) =~= padded.take(0));
    } else {
        lemma_concat_decoded_prefix(payload, chunk, w, h, (m - 1) as nat);
        let i = m - 1;
        let chunk_bytes = spec_padded_chunk(payload, chunk, i);
        assert(frames[i] == spec_encode_chunk(chunk_bytes, w, h));
        lemma_chunk_round_trip(chunk_bytes, w, h);
        lemma_padded_chunk_slice(payload, chunk, i);
        lemma_mul_inequality(m as int, nc, chunk);
        assert(m * chunk == i * chunk + chunk) by (nonlinear_arith)
            requires i == m - 1;
        assert(i * chunk >= 0) by (nonlinear_arith)
            requires i >= 0, chunk > 0;
        assert(padded.take(i * chunk) + padded.subrange(i * chunk, m * chunk) =~= padded.take(
            m * chunk,
        ));
    }
}

/// A payload occupies its chunk count: padding never shrinks it.
proof fn lemma_zero_padded_len(payload: Seq<u8>, chunk: int)
    requires
        0 < chunk,
        0 < payload.len(),
    ensures
        spec_zero_padded(payload, chunk).len() >= payload.len(),
        spec_zero_padded(payload, chunk).len() == spec_ceil_div(payload.len() as int, chunk)
            * chunk,
{
    let len = payload.len() as int;
    let nc = spec_ceil_div(len, chunk);
    lemma_fundamental_div_mod(len + chunk - 1, chunk);
    assert(chunk * nc >= len);
    assert(nc * chunk == chunk * nc) by (nonlinear_arith);
}

/// Full pipeline round trip on a clean channel: composing a payload
/// into frames, decoding every frame with the same chunk size,
/// truncating to the payload size and undoing the compression step
/// returns exactly the original bytes — so the decode-time checksum of
/// the reconstruction equals the encode-time checksum of the input. The
/// truncation also restores the exact payload length, whether or not
/// the payload size is a multiple of the chunk size.
///
/// Without compression this holds for every input that does not itself
/// begin with the compression magic; such an input would be
/// misdetected, which is why compressed payloads record their size.
pub proof fn lemma_pipeline_round_trip(
    data: Seq<u8>,
    payload: Seq<u8>,
    chunk: int,
    w: int,
    h: int,
    use_compression: bool,
)
    requires
        valid_frame_dims(w, h),
        0 < chunk <= w * h,
        0 < payload.len(),
        spec_payload_for(use_compression, data, payload),
        !use_compression ==> !spec_has_zstd_magic(data),
    ensures
        ({
            let frames = spec_frames_from_payload(payload, chunk, w, h);
            let collected = spec_concat_decoded(frames, chunk, w, h, frames.len());
            let truncated = spec_truncated(collected, payload.len() as int);
            &&& truncated == payload
            &&& spec_recovered(truncated) == Some(data)
        }),
{
    let frames = spec_frames_from_payload(payload, chunk, w, h);
    let padded = spec_zero_padded(payload, chunk);
    let nc = spec_ceil_div(payload.len() as int, chunk);
    crate::arith::lemma_ceil_div_bounds(payload.len() as int, chunk);
    assert(frames.len() == nc);
    lemma_concat_decoded_prefix(payload, chunk, w, h, nc as nat);
    lemma_zero_padded_len(payload, chunk);
    assert(padded.take(nc * chunk) =~= padded);
    let collected = spec_concat_decoded(frames, chunk, w, h, frames.len());
    assert(collected == padded);
    let truncated = spec_truncated(collected, payload.len() as int);
    if padded.len() > payload.len() {
        assert(padded.take(payload.len() as int) =~= payload);
    } else {
        assert(padded =~= payload);
    }
    assert(truncated == payload);
}

} // verus!
