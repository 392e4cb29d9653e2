//! Pixel codec: a deterministic, reversible mapping between a byte chunk
//! and an RGBA frame.
//!
//! Every pixel carries one payload byte blended with a geometric
//! background pattern computed purely from the pixel's coordinates.
//! Pixels are assigned to byte indices round-robin (`p % chunk_len`), so
//! each byte is spread over many redundant pixels. Decoding recomputes
//! the pattern, strips it from each pixel, and averages all carriers of a
//! byte; the averaging attenuates bounded per-pixel noise introduced by a
//! lossy transform of the frame.
//!
//! The blend is additive modulo 256, which is exactly invertible per
//! pixel on a clean channel, and the rounded average of the recovered
//! candidates tolerates deviations whose per-index total stays under half
//! a carrier count (see `lemma_noise_tolerance`).

use vstd::prelude::*;
use vstd::string::*;
use vstd::arithmetic::div_mod::*;
use crate::error::F2V2FError;

verus! {

broadcast use
    vstd::arithmetic::div_mod::lemma_mod_bound,
    vstd::arithmetic::div_mod::lemma_div_pos_is_pos;

/// Generates the deterministic geometric frames that carry chunk data.
pub struct GeometricArtGenerator {
    pub width: u32,
    pub height: u32,
    /// Selects among art styles; the grayscale geometric pattern is
    /// coordinate-determined, so decoding never needs this value.
    pub seed: u64,
}

/// Frame geometry the codec accepts: nonzero, at most 8K.
pub open spec fn valid_frame_dims(w: int, h: int) -> bool {
    1 <= w <= 7680 && 1 <= h <= 4320
}

/// Deterministic background value of the pixel at (x, y): the average of
/// a concentric-ring term, a grid term and a spiral term, each derived
/// from the coordinates alone so the decoder can recompute it exactly.
pub open spec fn spec_pattern(x: int, y: int, w: int, h: int) -> int {
    let dx = if 2 * x + 1 >= w { 2 * x + 1 - w } else { w - (2 * x + 1) };
    let dy = if 2 * y + 1 >= h { 2 * y + 1 - h } else { h - (2 * y + 1) };
    let ring = ((dx * dx + dy * dy) / 128) % 256;
    let grid = ((x / 16) * 31 + (y / 16) * 17) % 256;
    let spiral = ((x * y) / 32) % 256;
    (ring + grid + spiral) / 3
}

/// Intensity of a pixel that carries byte `d` under pattern value `t`.
pub open spec fn spec_blend(d: int, t: int) -> int {
    (d + t) % 256
}

/// Intensity of pixel `p` (row-major) of the frame that encodes `data`.
pub open spec fn spec_enc_pixel(data: Seq<u8>, p: int, w: int, h: int) -> int {
    spec_blend(data[p % (data.len() as int)] as int, spec_pattern(p % w, p / w, w, h))
}

/// The RGBA frame encoding `data`: the grayscale signal replicated over
/// R, G and B, with alpha fixed at 255.
pub open spec fn spec_encode_chunk(data: Seq<u8>, w: int, h: int) -> Seq<u8> {
    Seq::new(
        (4 * w * h) as nat,
        |j: int| if j % 4 == 3 { 255u8 } else { spec_enc_pixel(data, j / 4, w, h) as u8 },
    )
}

/// The RGBA frame holding the bare pattern, no payload.
pub open spec fn spec_pattern_frame(w: int, h: int) -> Seq<u8> {
    Seq::new(
        (4 * w * h) as nat,
        |j: int| if j % 4 == 3 {
            255u8
        } else {
            spec_pattern((j / 4) % w, (j / 4) / w, w, h) as u8
        },
    )
}

/// Grayscale value read back from pixel `p`: the mean of R, G and B.
pub open spec fn spec_lum(pixels: Seq<u8>, p: int) -> int {
    (pixels[4 * p] + pixels[4 * p + 1] + pixels[4 * p + 2]) / 3
}

/// Candidate byte recovered from pixel `p` by stripping the pattern.
pub open spec fn spec_candidate(pixels: Seq<u8>, p: int, w: int, h: int) -> int {
    (spec_lum(pixels, p) - spec_pattern(p % w, p / w, w, h)) % 256
}

/// Sum of the candidates of the first `n` pixels assigned to byte
/// index `i`.
pub open spec fn spec_acc_sum(
    pixels: Seq<u8>,
    chunk: int,
    w: int,
    h: int,
    i: int,
    n: nat,
) -> int
    decreases n,
{
    if n == 0 {
        0
    } else {
        spec_acc_sum(pixels, chunk, w, h, i, (n - 1) as nat) + if (n - 1) % chunk == i {
            spec_candidate(pixels, (n - 1) as int, w, h)
        } else {
            0
        }
    }
}

/// How many of the first `n` pixels are assigned to byte index `i`.
pub open spec fn spec_acc_cnt(chunk: int, i: int, n: nat) -> int
    decreases n,
{
    if n == 0 {
        0
    } else {
        spec_acc_cnt(chunk, i, (n - 1) as nat) + if (n - 1) % chunk == i {
            1int
        } else {
            0int
        }
    }
}

/// Rounded average of the accumulated candidates: the error-correcting
/// step of the decoder.
pub open spec fn spec_avg_byte(sum: int, cnt: int) -> int {
    if cnt > 0 {
        (2 * sum + cnt) / (2 * cnt)
    } else {
        0
    }
}

/// The chunk recovered from a frame's pixels.
pub open spec fn spec_decode_chunk(pixels: Seq<u8>, chunk: int, w: int, h: int) -> Seq<u8> {
    Seq::new(
        chunk as nat,
        |i: int| spec_avg_byte(
            spec_acc_sum(pixels, chunk, w, h, i, (w * h) as nat),
            spec_acc_cnt(chunk, i, (w * h) as nat),
        ) as u8,
    )
}

impl GeometricArtGenerator {
    pub fn new(width: u32, height: u32, seed: u64) -> (r: GeometricArtGenerator)
        ensures
            r.width == width,
            r.height == height,
            r.seed == seed,
    {
        GeometricArtGenerator { width, height, seed }
    }

    /// Background pattern value at pixel (x, y).
    pub fn compute_pattern(&self, x: u32, y: u32) -> (t: u8)
        requires
            valid_frame_dims(self.width as int, self.height as int),
            x < self.width,
            y < self.height,
        ensures
            t as int == spec_pattern(x as int, y as int, self.width as int, self.height as int),
    {
        let w = self.width as u64;
        let h = self.height as u64;
        let xx = x as u64;
        let yy = y as u64;
        let dx = if 2 * xx + 1 >= w {
            2 * xx + 1 - w
        } else {
            w - (2 * xx + 1)
        };
        let dy = if 2 * yy + 1 >= h {
            2 * yy + 1 - h
        } else {
            h - (2 * yy + 1)
        };
        proof {
            assert(dx * dx + dy * dy < 0x10000000) by (nonlinear_arith)
                requires 0 <= dx < 7680, 0 <= dy < 4320;
            assert(xx * yy < 0x4000000) by (nonlinear_arith)
                requires 0 <= xx < 7680, 0 <= yy < 4320;
            lemma_div_is_ordered(xx as int, 7679, 16);
            lemma_div_is_ordered(yy as int, 4319, 16);
            assert((xx as int / 16) * 31 + (yy as int / 16) * 17 < 0x10000) by (nonlinear_arith)
                requires 0 <= xx as int / 16 < 480, 0 <= yy as int / 16 < 270;
        }
        let ring = ((dx * dx + dy * dy) / 128) % 256;
        let grid = ((xx / 16) * 31 + (yy / 16) * 17) % 256;
        let spiral = ((xx * yy) / 32) % 256;
        proof {
            lemma_div_is_ordered(ring as int + grid as int + spiral as int, 765, 3);
        }
        (((ring + grid + spiral) / 3) as u8)
    }

    /// Produce the frame that encodes one chunk of payload bytes.
    pub fn generate_from_data(&self, data: &Vec<u8>) -> (r: Result<Vec<u8>, F2V2FError>)
        ensures
            r is Ok <==> (valid_frame_dims(self.width as int, self.height as int) && 0
                < data@.len() <= self.width * self.height),
            r is Ok ==> r->Ok_0@ == spec_encode_chunk(
                data@,
                self.width as int,
                self.height as int,
            ),
            (r matches Err(F2V2FError::ConfigError(_))) <==> !valid_frame_dims(
                self.width as int,
                self.height as int,
            ),
            (r matches Err(F2V2FError::InvalidInput(_))) <==> (valid_frame_dims(
                self.width as int,
                self.height as int,
            ) && !(0 < data@.len() <= self.width * self.height)),
    {
        if self.width == 0 || self.width > 7680 || self.height == 0 || self.height > 4320 {
            return Err(
                F2V2FError::ConfigError(String::from_str("frame dimensions out of range")),
            );
        }
        let w: usize = self.width as usize;
        let h: usize = self.height as usize;
        proof {
            assert((w as int) * (h as int) <= 33177600) by (nonlinear_arith)
                requires 1 <= w as int <= 7680, 1 <= h as int <= 4320;
            assert(4 * (w as int) * (h as int) == 4 * ((w as int) * (h as int)))
                by (nonlinear_arith);
        }
        let n: usize = w * h;
        if data.len() == 0 || data.len() > n {
            return Err(
                F2V2FError::InvalidInput(
                    String::from_str("chunk must be nonempty and at most one byte per pixel"),
                ),
            );
        }
        let ghost gw = self.width as int;
        let ghost gh = self.height as int;
        let clen: usize = data.len();
        let mut out: Vec<u8> = Vec::new();
        let mut p: usize = 0;
        while p < n
            invariant
                valid_frame_dims(gw, gh),
                w == gw,
                h == gh,
                n == gw * gh,
                4 * gw * gh == 4 * n,
                0 < clen <= n,
                clen == data@.len(),
                p <= n,
                self.width == gw,
                self.height == gh,
                out@.len() == 4 * p,
                forall|j: int|
                    0 <= j < 4 * p ==> out@[j] == spec_encode_chunk(data@, gw, gh)[j],
            decreases n - p,
        {
            proof {
                assert(p as int / gw < gh) by (nonlinear_arith)
                    requires 0 <= p < gw * gh, 0 < gw, 0 < gh;
            }
            let x = (p % w) as u32;
            let y = (p / w) as u32;
            let t = self.compute_pattern(x, y);
            let d = data[p % clen];
            let v: u8 = (((d as u32) + (t as u32)) % 256) as u8;
            proof {
                let spec_frame = spec_encode_chunk(data@, gw, gh);
                let e = spec_enc_pixel(data@, p as int, gw, gh);
                assert(0 <= e < 256);
                assert(v as int == e);
                lemma_rgba_index(p as int, 0);
                lemma_rgba_index(p as int, 1);
                lemma_rgba_index(p as int, 2);
                lemma_rgba_index(p as int, 3);
                assert(4 * p + 3 < 4 * (gw * gh));
                assert(spec_frame[4 * p] == e as u8);
                assert(spec_frame[4 * p + 1] == e as u8);
                assert(spec_frame[4 * p + 2] == e as u8);
                assert(spec_frame[4 * p + 3] == 255u8);
            }
            out.push(v);
            out.push(v);
            out.push(v);
            out.push(255);
            p += 1;
        }
        proof {
            assert(out@ =~= spec_encode_chunk(data@, gw, gh));
        }
        Ok(out)
    }

    /// Produce a frame holding the bare pattern, no payload.
    pub fn generate(&self) -> (r: Result<Vec<u8>, F2V2FError>)
        ensures
            r is Ok <==> valid_frame_dims(self.width as int, self.height as int),
            r is Ok ==> r->Ok_0@ == spec_pattern_frame(self.width as int, self.height as int),
            r is Err ==> (r matches Err(F2V2FError::ConfigError(_))),
    {
        if self.width == 0 || self.width > 7680 || self.height == 0 || self.height > 4320 {
            return Err(
                F2V2FError::ConfigError(String::from_str("frame dimensions out of range")),
            );
        }
        let w: usize = self.width as usize;
        let h: usize = self.height as usize;
        proof {
            assert((w as int) * (h as int) <= 33177600) by (nonlinear_arith)
                requires 1 <= w as int <= 7680, 1 <= h as int <= 4320;
            assert(4 * (w as int) * (h as int) == 4 * ((w as int) * (h as int)))
                by (nonlinear_arith);
        }
        let n: usize = w * h;
        let ghost gw = self.width as int;
        let ghost gh = self.height as int;
        let mut out: Vec<u8> = Vec::new();
        let mut p: usize = 0;
        while p < n
            invariant
                valid_frame_dims(gw, gh),
                w == gw,
                h == gh,
                n == gw * gh,
                4 * gw * gh == 4 * n,
                p <= n,
                self.width == gw,
                self.height == gh,
                out@.len() == 4 * p,
                forall|j: int| 0 <= j < 4 * p ==> out@[j] == spec_pattern_frame(gw, gh)[j],
            decreases n - p,
        {
            proof {
                assert(p as int / gw < gh) by (nonlinear_arith)
                    requires 0 <= p < gw * gh, 0 < gw, 0 < gh;
            }
            let x = (p % w) as u32;
            let y = (p / w) as u32;
            let t = self.compute_pattern(x, y);
            proof {
                lemma_rgba_index(p as int, 0);
                lemma_rgba_index(p as int, 1);
                lemma_rgba_index(p as int, 2);
                lemma_rgba_index(p as int, 3);
                assert(4 * p + 3 < 4 * (gw * gh));
            }
            out.push(t);
            out.push(t);
            out.push(t);
            out.push(255);
            p += 1;
        }
        proof {
            assert(out@ =~= spec_pattern_frame(gw, gh));
        }
        Ok(out)
    }

    /// Recover a chunk of `chunk_size` bytes from a frame's pixels by
    /// accumulating and averaging the per-pixel candidates.
    pub fn decode_from_image(&self, img: &Vec<u8>, chunk_size: usize) -> (r: Result<
        Vec<u8>,
        F2V2FError,
    >)
        ensures
            r is Ok <==> (valid_frame_dims(self.width as int, self.height as int) && 0 < chunk_size
                <= self.width * self.height && img@.len() == 4 * (self.width as int) * (
            self.height as int)),
            r is Ok ==> r->Ok_0@ == spec_decode_chunk(
                img@,
                chunk_size as int,
                self.width as int,
                self.height as int,
            ),
            (r matches Err(F2V2FError::ConfigError(_))) <==> (!valid_frame_dims(
                self.width as int,
                self.height as int,
            ) || chunk_size == 0 || chunk_size > self.width * self.height),
            (r matches Err(F2V2FError::DecodingError(_))) <==> (valid_frame_dims(
                self.width as int,
                self.height as int,
            ) && 0 < chunk_size <= self.width * self.height && img@.len() != 4 * (
            self.width as int) * (self.height as int)),
    {
        if self.width == 0 || self.width > 7680 || self.height == 0 || self.height > 4320 {
            return Err(
                F2V2FError::ConfigError(String::from_str("frame dimensions out of range")),
            );
        }
        let w: usize = self.width as usize;
        let h: usize = self.height as usize;
        proof {
            assert((w as int) * (h as int) <= 33177600) by (nonlinear_arith)
                requires 1 <= w as int <= 7680, 1 <= h as int <= 4320;
            assert(4 * (w as int) * (h as int) == 4 * ((w as int) * (h as int)))
                by (nonlinear_arith);
        }
        let n: usize = w * h;
        if chunk_size == 0 || chunk_size > n {
            return Err(
                F2V2FError::ConfigError(
                    String::from_str("chunk size must be nonzero and at most one byte per pixel"),
                ),
            );
        }
        if img.len() != 4 * n {
            return Err(
                F2V2FError::DecodingError(String::from_str("frame buffer has the wrong size")),
            );
        }
        let ghost gw = self.width as int;
        let ghost gh = self.height as int;
        let ghost gc = chunk_size as int;
        proof {
            assert(gw * gh <= 33177600) by (nonlinear_arith)
                requires 1 <= gw <= 7680, 1 <= gh <= 4320;
        }
        let mut sums: Vec<u64> = Vec::new();
        let mut counts: Vec<u64> = Vec::new();
        let mut i: usize = 0;
        while i < chunk_size
            invariant
                i <= chunk_size,
                sums@.len() == i,
                counts@.len() == i,
                forall|k: int| 0 <= k < i ==> sums@[k] == 0 && counts@[k] == 0,
            decreases chunk_size - i,
        {
            sums.push(0);
            counts.push(0);
            i += 1;
        }
        let mut p: usize = 0;
        while p < n
            invariant
                valid_frame_dims(gw, gh),
                w == gw,
                h == gh,
                n == gw * gh,
                4 * gw * gh == 4 * n,
                n <= 33177600,
                0 < chunk_size <= n,
                gc == chunk_size,
                self.width == gw,
                self.height == gh,
                img@.len() == 4 * gw * gh,
                p <= n,
                sums@.len() == chunk_size,
                counts@.len() == chunk_size,
                forall|k: int|
                    0 <= k < gc ==> counts@[k] == spec_acc_cnt(gc, k, p as nat) && sums@[k]
                        == spec_acc_sum(img@, gc, gw, gh, k, p as nat),
                forall|k: int|
                    0 <= k < gc ==> counts@[k] <= p && sums@[k] <= 255 * counts@[k],
            decreases n - p,
        {
            let lum: u32 = ((img[4 * p] as u32) + (img[4 * p + 1] as u32) + (img[4 * p + 2]
                as u32)) / 3;
            proof {
                assert(p as int / gw < gh) by (nonlinear_arith)
                    requires 0 <= p < gw * gh, 0 < gw, 0 < gh;
            }
            let x = (p % w) as u32;
            let y = (p / w) as u32;
            let t = self.compute_pattern(x, y);
            let cand: u32 = (lum + 256 - (t as u32)) % 256;
            let idx: usize = p % chunk_size;
            proof {
                lemma_mod_add_multiples_vanish(lum as int - t as int, 256);
                assert(cand as int == spec_candidate(img@, p as int, gw, gh));
                assert(0 <= cand < 256);
            }
            let new_sum: u64 = sums[idx] + (cand as u64);
            let new_cnt: u64 = counts[idx] + 1;
            sums[idx] = new_sum;
            counts[idx] = new_cnt;
            p += 1;
            proof {
                assert forall|k: int| 0 <= k < gc implies counts@[k] == spec_acc_cnt(
                    gc,
                    k,
                    p as nat,
                ) && sums@[k] == spec_acc_sum(img@, gc, gw, gh, k, p as nat) by {
                    assert(spec_acc_cnt(gc, k, p as nat) == spec_acc_cnt(
                        gc,
                        k,
                        (p - 1) as nat,
                    ) + if (p - 1) % gc == k { 1int } else { 0int });
                    assert(spec_acc_sum(img@, gc, gw, gh, k, p as nat) == spec_acc_sum(
                        img@,
                        gc,
                        gw,
                        gh,
                        k,
                        (p - 1) as nat,
                    ) + if (p - 1) % gc == k {
                        spec_candidate(img@, (p - 1) as int, gw, gh)
                    } else {
                        0int
                    });
                }
            }
        }
        let mut out: Vec<u8> = Vec::new();
        let mut i: usize = 0;
        while i < chunk_size
            invariant
                valid_frame_dims(gw, gh),
                n == gw * gh,
                n <= 33177600,
                0 < chunk_size <= n,
                gc == chunk_size,
                img@.len() == 4 * gw * gh,
                sums@.len() == chunk_size,
                counts@.len() == chunk_size,
                forall|k: int|
                    0 <= k < gc ==> counts@[k] == spec_acc_cnt(gc, k, n as nat) && sums@[k]
                        == spec_acc_sum(img@, gc, gw, gh, k, n as nat),
                forall|k: int|
                    0 <= k < gc ==> counts@[k] <= n && sums@[k] <= 255 * counts@[k],
                i <= chunk_size,
                out@.len() == i,
                forall|k: int|
                    0 <= k < i ==> out@[k] == spec_decode_chunk(img@, gc, gw, gh)[k],
            decreases chunk_size - i,
        {
            proof {
                lemma_acc_cnt_pos(gc, i as int, n as nat);
            }
            let s: u64 = sums[i];
            let c: u64 = counts[i];
            let avg: u64 = (2 * s + c) / (2 * c);
            proof {
                lemma_avg_byte_bounds(s as int, c as int);
                assert(avg as int == spec_avg_byte(s as int, c as int));
            }
            out.push(avg as u8);
            i += 1;
        }
        proof {
            assert(out@ =~= spec_decode_chunk(img@, gc, gw, gh));
        }
        Ok(out)
    }
}

/// Deviation of the read-back grayscale of the first `n` pixels assigned
/// to byte index `i`, relative to the frame that encodes `data`.
pub open spec fn spec_acc_dev(
    noisy: Seq<u8>,
    data: Seq<u8>,
    w: int,
    h: int,
    i: int,
    n: nat,
) -> int
    decreases n,
{
    if n == 0 {
        0
    } else {
        spec_acc_dev(noisy, data, w, h, i, (n - 1) as nat) + if (n - 1) % (data.len() as int)
            == i {
            spec_lum(noisy, (n - 1) as int) - spec_enc_pixel(data, (n - 1) as int, w, h)
        } else {
            0
        }
    }
}

/// Stripping the pattern from a pixel of the frame that encodes `data`
/// recovers the carried byte exactly.
proof fn lemma_candidate_of_encode(data: Seq<u8>, p: int, w: int, h: int)
    requires
        valid_frame_dims(w, h),
        0 < data.len(),
        0 <= p < w * h,
    ensures
        spec_candidate(spec_encode_chunk(data, w, h), p, w, h) == data[p % (data.len() as int)],
{
    let c = data.len() as int;
    let pix = spec_encode_chunk(data, w, h);
    let e = spec_enc_pixel(data, p, w, h);
    let t = spec_pattern(p % w, p / w, w, h);
    let d = data[p % c] as int;
    assert(4 * w * h == 4 * (w * h)) by (nonlinear_arith);
    lemma_rgba_index(p, 0);
    lemma_rgba_index(p, 1);
    lemma_rgba_index(p, 2);
    assert(0 <= e < 256);
    assert(pix[4 * p] == e as u8);
    assert(pix[4 * p + 1] == e as u8);
    assert(pix[4 * p + 2] == e as u8);
    lemma_div_by_multiple(e, 3);
    assert(spec_lum(pix, p) == (e * 3) / 3);
    let q = (d + t) / 256;
    lemma_fundamental_div_mod(d + t, 256);
    assert(e - t == 256 * (-q) + d);
    lemma_mod_multiples_vanish(-q, d, 256);
    lemma_small_mod(d as nat, 256);
}

/// One noisy pixel still yields `byte + deviation` when the byte is far
/// enough from the intensity extremes that no wrap-around can occur.
proof fn lemma_candidate_of_noisy(
    data: Seq<u8>,
    noisy: Seq<u8>,
    p: int,
    w: int,
    h: int,
    eps: int,
)
    requires
        valid_frame_dims(w, h),
        0 < data.len(),
        0 <= p < w * h,
        0 <= eps,
        eps <= data[p % (data.len() as int)],
        data[p % (data.len() as int)] + eps <= 255,
        -eps <= spec_lum(noisy, p) - spec_enc_pixel(data, p, w, h) <= eps,
    ensures
        spec_candidate(noisy, p, w, h) == data[p % (data.len() as int)] + (spec_lum(noisy, p)
            - spec_enc_pixel(data, p, w, h)),
{
    let c = data.len() as int;
    let d = data[p % c] as int;
    let t = spec_pattern(p % w, p / w, w, h);
    let e = spec_enc_pixel(data, p, w, h);
    let dev = spec_lum(noisy, p) - e;
    let q = (d + t) / 256;
    lemma_fundamental_div_mod(d + t, 256);
    assert(spec_lum(noisy, p) - t == 256 * (-q) + (d + dev));
    lemma_mod_multiples_vanish(-q, d + dev, 256);
    lemma_small_mod((d + dev) as nat, 256);
}

/// Accumulated over the whole frame of an encoding, each byte index's
/// candidate sum is its byte value times its pixel count, shifted by the
/// accumulated grayscale deviation.
proof fn lemma_acc_of_noisy(
    data: Seq<u8>,
    noisy: Seq<u8>,
    w: int,
    h: int,
    eps: int,
    i: int,
    n: nat,
)
    requires
        valid_frame_dims(w, h),
        0 < data.len() <= w * h,
        0 <= i < data.len(),
        n <= w * h,
        0 <= eps,
        forall|k: int| #![auto] 0 <= k < data.len() ==> eps <= data[k] && data[k] + eps <= 255,
        forall|p: int| #![trigger spec_lum(noisy, p)]
            0 <= p < w * h ==> -eps <= spec_lum(noisy, p) - spec_enc_pixel(data, p, w, h) <= eps,
    ensures
        spec_acc_sum(noisy, data.len() as int, w, h, i, n) == data[i] * spec_acc_cnt(
            data.len() as int,
            i,
            n,
        ) + spec_acc_dev(noisy, data, w, h, i, n),
    decreases n,
{
    let c = data.len() as int;
    if n == 0 {
    } else {
        lemma_acc_of_noisy(data, noisy, w, h, eps, i, (n - 1) as nat);
        if (n - 1) % c == i {
            lemma_candidate_of_noisy(data, noisy, (n - 1) as int, w, h, eps);
            assert(data[i] * (spec_acc_cnt(c, i, (n - 1) as nat) + 1) == data[i] * spec_acc_cnt(
                c,
                i,
                (n - 1) as nat,
            ) + data[i]) by (nonlinear_arith);
        }
    }
}

/// A flat RGBA buffer splits every pixel into four consecutive bytes:
/// byte `4 * p + k` belongs to pixel `p`, channel `k`.
proof fn lemma_rgba_index(p: int, k: int)
    requires
        0 <= p,
        0 <= k < 4,
    ensures
        (4 * p + k) % 4 == k,
        (4 * p + k) / 4 == p,
{
    lemma_mod_multiples_vanish(p, k, 4);
    lemma_small_mod(k as nat, 4);
    lemma_div_multiples_vanish_fancy(p, k, 4);
}

/// The average of candidates that are all at most 255 is itself at most
/// 255, and never negative.
proof fn lemma_avg_byte_bounds(s: int, c: int)
    requires
        0 < c,
        0 <= s <= 255 * c,
    ensures
        0 <= spec_avg_byte(s, c) <= 255,
{
    lemma_div_is_ordered(2 * s + c, 511 * c, 2 * c);
    lemma_div_multiples_vanish_fancy(255, c, 2 * c);
    assert(511 * c == (2 * c) * 255 + c) by (nonlinear_arith);
    lemma_div_pos_is_pos(2 * s + c, 2 * c);
}

/// Every byte index below the chunk length receives at least one pixel.
proof fn lemma_acc_cnt_pos(chunk: int, i: int, n: nat)
    requires
        0 <= i < chunk,
        i < n,
    ensures
        spec_acc_cnt(chunk, i, n) >= 1,
    decreases n,
{
    lemma_small_mod(i as nat, chunk as nat);
    if n - 1 == i {
        lemma_acc_cnt_nonneg(chunk, i, (n - 1) as nat);
    } else {
        lemma_acc_cnt_pos(chunk, i, (n - 1) as nat);
    }
}

/// Pixel counts never go negative.
proof fn lemma_acc_cnt_nonneg(chunk: int, i: int, n: nat)
    ensures
        spec_acc_cnt(chunk, i, n) >= 0,
    decreases n,
{
    if n > 0 {
        lemma_acc_cnt_nonneg(chunk, i, (n - 1) as nat);
    }
}

/// Accumulated over the frame of an encoding with no noise, each byte
/// index's candidate sum is its byte value times its pixel count.
proof fn lemma_acc_of_encode(data: Seq<u8>, w: int, h: int, i: int, n: nat)
    requires
        valid_frame_dims(w, h),
        0 < data.len() <= w * h,
        0 <= i < data.len(),
        n <= w * h,
    ensures
        spec_acc_sum(spec_encode_chunk(data, w, h), data.len() as int, w, h, i, n) == data[i]
            * spec_acc_cnt(data.len() as int, i, n),
    decreases n,
{
    let c = data.len() as int;
    if n == 0 {
    } else {
        lemma_acc_of_encode(data, w, h, i, (n - 1) as nat);
        if (n - 1) % c == i {
            lemma_candidate_of_encode(data, (n - 1) as int, w, h);
            assert(data[i] * (spec_acc_cnt(c, i, (n - 1) as nat) + 1) == data[i] * spec_acc_cnt(
                c,
                i,
                (n - 1) as nat,
            ) + data[i]) by (nonlinear_arith);
        }
    }
}

/// Chunk round trip on a clean channel: decoding the frame that encodes
/// `data`, with the chunk size it was encoded at, returns `data` exactly.
/// This holds for every nonempty chunk that fits the frame, every valid
/// geometry included.
pub proof fn lemma_chunk_round_trip(data: Seq<u8>, w: int, h: int)
    requires
        valid_frame_dims(w, h),
        0 < data.len() <= w * h,
    ensures
        spec_decode_chunk(spec_encode_chunk(data, w, h), data.len() as int, w, h) == data,
{
    let c = data.len() as int;
    let pix = spec_encode_chunk(data, w, h);
    let n = (w * h) as nat;
    let dec = spec_decode_chunk(pix, c, w, h);
    assert forall|i: int| 0 <= i < c implies dec[i] == data[i] by {
        lemma_acc_of_encode(data, w, h, i, n);
        lemma_acc_cnt_pos(c, i, n);
        let k = spec_acc_cnt(c, i, n);
        let d = data[i] as int;
        assert(2 * (d * k) + k == (2 * k) * d + k) by (nonlinear_arith);
        lemma_div_multiples_vanish_fancy(d, k, 2 * k);
        assert(spec_avg_byte(d * k, k) == d);
    }
    assert(dec =~= data);
}

/// Noise tolerance of the codec: decoding still returns `data` exactly
/// when every byte sits at least `eps` away from the intensity extremes,
/// every pixel's read-back grayscale deviates from the encoded intensity
/// by at most `eps`, and for every byte index the accumulated deviation
/// cancels to under half the index's pixel count. The averaging step
/// absorbs such noise whatever the individual deviations are.
pub proof fn lemma_noise_tolerance(data: Seq<u8>, noisy: Seq<u8>, w: int, h: int, eps: int)
    requires
        valid_frame_dims(w, h),
        0 < data.len() <= w * h,
        0 <= eps,
        forall|i: int| #![auto] 0 <= i < data.len() ==> eps <= data[i] && data[i] + eps <= 255,
        forall|p: int| #![trigger spec_lum(noisy, p)]
            0 <= p < w * h ==> -eps <= spec_lum(noisy, p) - spec_enc_pixel(data, p, w, h) <= eps,
        forall|i: int| #![trigger spec_acc_dev(noisy, data, w, h, i, (w * h) as nat)]
            0 <= i < data.len() ==> -spec_acc_cnt(data.len() as int, i, (w * h) as nat) <= 2
                * spec_acc_dev(noisy, data, w, h, i, (w * h) as nat) < spec_acc_cnt(
                data.len() as int,
                i,
                (w * h) as nat,
            ),
    ensures
        spec_decode_chunk(noisy, data.len() as int, w, h) == data,
{
    let c = data.len() as int;
    let n = (w * h) as nat;
    let dec = spec_decode_chunk(noisy, c, w, h);
    assert forall|i: int| 0 <= i < c implies dec[i] == data[i] by {
        lemma_acc_of_noisy(data, noisy, w, h, eps, i, n);
        lemma_acc_cnt_pos(c, i, n);
        let k = spec_acc_cnt(c, i, n);
        let s = spec_acc_dev(noisy, data, w, h, i, n);
        let d = data[i] as int;
        assert(-k <= 2 * s < k);
        assert(2 * (d * k + s) + k == (2 * k) * d + (2 * s + k)) by (nonlinear_arith);
        lemma_div_multiples_vanish_fancy(d, 2 * s + k, 2 * k);
        assert(spec_avg_byte(d * k + s, k) == d);
    }
    assert(dec =~= data);
}

} // verus!
