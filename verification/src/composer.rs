//! Frame composition for whole payloads, and the sidecar metadata text
//! that records how to reverse the encoding.

use vstd::prelude::*;
use vstd::string::*;
use vstd::arithmetic::div_mod::*;
use crate::arith::{ceil_div_usize, spec_ceil_div};
use crate::codec::{spec_encode_chunk, valid_frame_dims, GeometricArtGenerator};
use crate::decimal::{
    all_dec_digits,
    lemma_dec_digits_val,
    parse_u64_digits,
    spec_dec_digits,
    spec_digits_val,
    u64_to_string,
};
use crate::error::F2V2FError;

verus! {

broadcast use
    vstd::arithmetic::div_mod::lemma_mod_bound,
    vstd::arithmetic::div_mod::lemma_div_pos_is_pos;

/// Turns a payload into one frame per chunk and words the sidecar
/// metadata that decoding needs.
pub struct VideoComposer {
    pub width: u32,
    pub height: u32,
    pub fps: u32,
}

/// Validates video files from plain facts an I/O layer reads off disk.
pub struct VideoValidator;

/// The `i`th chunk of a payload, zero-padded to `chunk_size`.
pub open spec fn spec_padded_chunk(payload: Seq<u8>, chunk_size: int, i: int) -> Seq<u8> {
    Seq::new(
        chunk_size as nat,
        |j: int| if i * chunk_size + j < payload.len() {
            payload[i * chunk_size + j]
        } else {
            0u8
        },
    )
}

/// One frame per chunk of the payload, in payload order.
pub open spec fn spec_frames_from_payload(
    payload: Seq<u8>,
    chunk_size: int,
    w: int,
    h: int,
) -> Seq<Seq<u8>> {
    Seq::new(
        spec_ceil_div(payload.len() as int, chunk_size) as nat,
        |i: int| spec_encode_chunk(spec_padded_chunk(payload, chunk_size, i), w, h),
    )
}

/// Every chunk index below the chunk count starts inside the payload.
pub proof fn lemma_chunk_start_bound(len: int, c: int, i: int)
    requires
        0 < c,
        0 <= len,
        0 <= i < spec_ceil_div(len, c),
    ensures
        i * c < len,
{
    lemma_fundamental_div_mod(len + c - 1, c);
    let q = spec_ceil_div(len, c);
    assert(i * c <= (q - 1) * c) by (nonlinear_arith)
        requires i <= q - 1, c > 0;
    assert((q - 1) * c == c * q - c) by (nonlinear_arith);
}

/// The sidecar text recording chunk size `c`, compressed size `e` and
/// original size `o`, one `key=value` line each.
pub open spec fn spec_render_metadata(c: int, e: int, o: int) -> Seq<char> {
    "chunk_size="@ + spec_dec_digits(c) + "\n"@ + "compressed_size="@ + spec_dec_digits(e)
        + "\n"@ + "original_size="@ + spec_dec_digits(o) + "\n"@
}

/// The value a sidecar line carries for `key`: the line must start with
/// the key and continue with at least one character, all decimal digits.
pub open spec fn spec_line_value(line: Seq<char>, key: Seq<char>) -> Option<int> {
    if line.len() > key.len() && line.subrange(0, key.len() as int) == key && all_dec_digits(
        line.subrange(key.len() as int, line.len() as int),
    ) {
        Some(spec_digits_val(line.subrange(key.len() as int, line.len() as int)))
    } else {
        None
    }
}

/// One sidecar line applied to the metadata triple (chunk size,
/// compressed size, original size): a recognized key with an in-range
/// value replaces its field; unknown keys and malformed lines change
/// nothing. A trailing carriage return is ignored.
pub open spec fn spec_apply_meta_line(line: Seq<char>, st: (int, int, int)) -> (int, int, int) {
    let l = if line.len() > 0 && line.last() == '\r' {
        line.drop_last()
    } else {
        line
    };
    let cv = spec_line_value(l, "chunk_size="@);
    let ev = spec_line_value(l, "compressed_size="@);
    let ov = spec_line_value(l, "original_size="@);
    if cv is Some && cv->Some_0 <= usize::MAX {
        (cv->Some_0, st.1, st.2)
    } else if ev is Some && ev->Some_0 <= u64::MAX {
        (st.0, ev->Some_0, st.2)
    } else if ov is Some && ov->Some_0 <= u64::MAX {
        (st.0, st.1, ov->Some_0)
    } else {
        st
    }
}

/// Index of the first newline in `s` at or after `i`, or the length of
/// `s` when there is none.
pub open spec fn first_nl(s: Seq<char>, i: int) -> int
    decreases s.len() - i when 0 <= i <= s.len()
{
    if i >= s.len() {
        s.len() as int
    } else if s[i] == '\n' {
        i
    } else {
        first_nl(s, i + 1)
    }
}

/// The first newline at or after `i` is never before `i` nor past the
/// end.
pub proof fn lemma_first_nl_bounds(s: Seq<char>, i: int)
    requires
        0 <= i <= s.len(),
    ensures
        i <= first_nl(s, i) <= s.len(),
    decreases s.len() - i,
{
    if i < s.len() && s[i] != '\n' {
        lemma_first_nl_bounds(s, i + 1);
    }
}

#[via_fn]
proof fn parse_metadata_from_decreases(s: Seq<char>, i: int, st: (int, int, int)) {
    lemma_first_nl_bounds(s, i);
}

/// The metadata triple after every newline-separated line of `s` from
/// position `i` on has been applied.
pub open spec fn spec_parse_metadata_from(s: Seq<char>, i: int, st: (int, int, int)) -> (
    int,
    int,
    int,
)
    decreases s.len() - i when 0 <= i <= s.len() via parse_metadata_from_decreases
{
    let k = first_nl(s, i);
    if k >= s.len() {
        spec_apply_meta_line(s.subrange(i, s.len() as int), st)
    } else {
        spec_parse_metadata_from(s, k + 1, spec_apply_meta_line(s.subrange(i, k), st))
    }
}

/// The metadata triple a sidecar text denotes, starting from the
/// fallback chunk size and zero sizes.
pub open spec fn spec_parse_metadata(s: Seq<char>, default_chunk_size: int) -> (int, int, int) {
    spec_parse_metadata_from(s, 0, (default_chunk_size, 0, 0))
}

/// A first newline is where a scan that found none yet says it is.
proof fn lemma_first_nl_skip(s: Seq<char>, i: int, j: int)
    requires
        0 <= i <= j <= s.len(),
        forall|t: int| i <= t < j ==> s[t] != '\n',
        j < s.len() ==> s[j] == '\n',
    ensures
        first_nl(s, i) == if j < s.len() {
            j
        } else {
            s.len() as int
        },
    decreases j - i,
{
    if i < j {
        lemma_first_nl_skip(s, i + 1, j);
    }
}

/// One well-formed `key=digits` line, terminated by a newline or the
/// end of the text, advances the parse by exactly that line.
proof fn lemma_parse_one_line(s: Seq<char>, i: int, j: int, st: (int, int, int))
    requires
        0 <= i <= j <= s.len(),
        forall|t: int| i <= t < j ==> s[t] != '\n',
        j < s.len() ==> s[j] == '\n',
    ensures
        j < s.len() ==> spec_parse_metadata_from(s, i, st) == spec_parse_metadata_from(
            s,
            j + 1,
            spec_apply_meta_line(s.subrange(i, j), st),
        ),
        j == s.len() ==> spec_parse_metadata_from(s, i, st) == spec_apply_meta_line(
            s.subrange(i, j),
            st,
        ),
{
    lemma_first_nl_skip(s, i, j);
}

/// Rendered sidecar text reads back as exactly the sizes it was
/// rendered from: the recorded chunk size — the adjusted one the
/// encoder actually used — and both sizes survive the round trip
/// whatever the fallback chunk size is.
pub proof fn lemma_sidecar_round_trip(c: int, e: int, o: int, d: int)
    requires
        0 <= c <= usize::MAX,
        0 <= e <= u64::MAX,
        0 <= o <= u64::MAX,
    ensures
        spec_parse_metadata(spec_render_metadata(c, e, o), d) == (c, e, o),
{
    let k1 = "chunk_size="@;
    let k2 = "compressed_size="@;
    let k3 = "original_size="@;
    reveal_strlit("chunk_size=");
    reveal_strlit("compressed_size=");
    reveal_strlit("original_size=");
    reveal_strlit("\n");
    let d1 = spec_dec_digits(c);
    let d2 = spec_dec_digits(e);
    let d3 = spec_dec_digits(o);
    lemma_dec_digits_val(c);
    lemma_dec_digits_val(e);
    lemma_dec_digits_val(o);
    let s = spec_render_metadata(c, e, o);
    let line1 = k1 + d1;
    let line2 = k2 + d2;
    let line3 = k3 + d3;
    let j1 = line1.len() as int;
    let i2 = j1 + 1;
    let j2 = i2 + line2.len();
    let i3 = j2 + 1;
    let j3 = i3 + line3.len();
    assert(s.len() == j3 + 1);
    assert(s[j1] == '\n');
    assert(s[j2] == '\n');
    assert(s[j3] == '\n');
    assert(s.subrange(0, j1) =~= line1);
    assert(s.subrange(i2, j2) =~= line2);
    assert(s.subrange(i3, j3) =~= line3);
    assert forall|t: int| 0 <= t < j1 implies s[t] != '\n' by {
        if t < 11 {
            assert(s[t] == k1[t]);
        } else {
            assert(s[t] == d1[t - 11]);
            assert(crate::decimal::is_dec_digit(d1[t - 11]));
        }
    }
    assert forall|t: int| i2 <= t < j2 implies s[t] != '\n' by {
        if t < i2 + 16 {
            assert(s[t] == k2[t - i2]);
        } else {
            assert(s[t] == d2[t - i2 - 16]);
            assert(crate::decimal::is_dec_digit(d2[t - i2 - 16]));
        }
    }
    assert forall|t: int| i3 <= t < j3 implies s[t] != '\n' by {
        if t < i3 + 14 {
            assert(s[t] == k3[t - i3]);
        } else {
            assert(s[t] == d3[t - i3 - 14]);
            assert(crate::decimal::is_dec_digit(d3[t - i3 - 14]));
        }
    }
    let st0 = (d, 0int, 0int);
    let st1 = (c, 0int, 0int);
    let st2 = (c, e, 0int);
    let st3 = (c, e, o);
    lemma_parse_one_line(s, 0, j1, st0);
    assert(spec_apply_meta_line(line1, st0) == st1) by {
        assert(line1.last() == d1.last());
        assert(crate::decimal::is_dec_digit(d1.last()));
        assert(line1.subrange(0, 11) =~= k1);
        assert(line1.subrange(11, line1.len() as int) =~= d1);
        assert(spec_line_value(line1, k1) == Some(c));
    }
    lemma_parse_one_line(s, i2, j2, st1);
    assert(spec_apply_meta_line(line2, st1) == st2) by {
        assert(line2.last() == d2.last());
        assert(crate::decimal::is_dec_digit(d2.last()));
        assert(line2.subrange(0, 16) =~= k2);
        assert(line2.subrange(16, line2.len() as int) =~= d2);
        assert(spec_line_value(line2, k2) == Some(e));
        if line2.len() > 11 && line2.subrange(0, 11) == k1 {
            assert(line2.subrange(0, 11)[1] == line2[1]);
            assert(line2[1] == k2[1]);
            assert(false);
        }
    }
    lemma_parse_one_line(s, i3, j3, st2);
    assert(spec_apply_meta_line(line3, st2) == st3) by {
        assert(line3.last() == d3.last());
        assert(crate::decimal::is_dec_digit(d3.last()));
        assert(line3.subrange(0, 14) =~= k3);
        assert(line3.subrange(14, line3.len() as int) =~= d3);
        assert(spec_line_value(line3, k3) == Some(o));
        if line3.len() > 11 && line3.subrange(0, 11) == k1 {
            assert(line3.subrange(0, 11)[0] == line3[0]);
            assert(line3[0] == k3[0]);
            assert(false);
        }
        if line3.len() > 16 && line3.subrange(0, 16) == k2 {
            assert(line3.subrange(0, 16)[0] == line3[0]);
            assert(line3[0] == k3[0]);
            assert(false);
        }
    }
    lemma_parse_one_line(s, j3 + 1, j3 + 1, st3);
    assert(s.subrange(j3 + 1, j3 + 1) =~= Seq::<char>::empty());
    assert(spec_apply_meta_line(Seq::<char>::empty(), st3) == st3);
}

/// Read one `key=value` decimal line value out of
/// `content[from..to]`, when the value fits a `u64`.
fn line_value(content: &str, from: usize, to: usize, key: &str) -> (r: Option<u64>)
    requires
        from <= to <= content@.len(),
    ensures
        ({
            let l = content@.subrange(from as int, to as int);
            let v = spec_line_value(l, key@);
            &&& r is Some <==> (v is Some && v->Some_0 <= u64::MAX)
            &&& r is Some ==> Some(r->Some_0 as int) == v
        }),
{
    let ghost l = content@.subrange(from as int, to as int);
    let klen = key.unicode_len();
    if to - from <= klen {
        return None;
    }
    let mut i: usize = 0;
    while i < klen
        invariant
            i <= klen,
            klen == key@.len(),
            from <= to <= content@.len(),
            to - from > klen,
            l == content@.subrange(from as int, to as int),
            forall|t: int| 0 <= t < i ==> content@[from + t] == key@[t],
        decreases klen - i,
    {
        if content.get_char(from + i) != key.get_char(i) {
            proof {
                assert(l.subrange(0, klen as int)[i as int] == content@[from + i]);
                assert(l.subrange(0, klen as int) != key@);
            }
            return None;
        }
        i += 1;
    }
    proof {
        assert(l.subrange(0, klen as int) =~= key@);
        assert(l.subrange(klen as int, l.len() as int) =~= content@.subrange(
            from + klen,
            to as int,
        ));
    }
    parse_u64_digits(content, from + klen, to)
}

/// Apply one line of sidecar text, `content[from..to]`, to the triple.
fn apply_meta_line(content: &str, from: usize, to: usize, st: (usize, u64, u64)) -> (r: (
    usize,
    u64,
    u64,
))
    requires
        from <= to <= content@.len(),
    ensures
        (r.0 as int, r.1 as int, r.2 as int) == spec_apply_meta_line(
            content@.subrange(from as int, to as int),
            (st.0 as int, st.1 as int, st.2 as int),
        ),
{
    let ghost line = content@.subrange(from as int, to as int);
    let to2: usize = if to > from && content.get_char(to - 1) == '\r' {
        to - 1
    } else {
        to
    };
    proof {
        if to > from && content@[to - 1] == '\r' {
            assert(line.len() > 0 && line.last() == '\r');
            assert(line.drop_last() =~= content@.subrange(from as int, to2 as int));
        } else {
            assert(!(line.len() > 0 && line.last() == '\r'));
        }
    }
    let cv = line_value(content, from, to2, "chunk_size=");
    let ev = line_value(content, from, to2, "compressed_size=");
    let ov = line_value(content, from, to2, "original_size=");
    match cv {
        Some(v) if v <= usize::MAX as u64 => ((v as usize), st.1, st.2),
        _ => match ev {
            Some(v) => (st.0, v, st.2),
            None => match ov {
                Some(v) => (st.0, st.1, v),
                None => st,
            },
        },
    }
}

/// Fold the sidecar lines from position `pos` into the triple.
fn parse_metadata_from(content: &str, pos: usize, st: (usize, u64, u64)) -> (r: (usize, u64, u64))
    requires
        pos <= content@.len(),
    ensures
        (r.0 as int, r.1 as int, r.2 as int) == spec_parse_metadata_from(
            content@,
            pos as int,
            (st.0 as int, st.1 as int, st.2 as int),
        ),
    decreases content@.len() - pos,
{
    let len = content.unicode_len();
    let mut k: usize = pos;
    while k < len && content.get_char(k) != '\n'
        invariant
            pos <= k <= len,
            len == content@.len(),
            first_nl(content@, k as int) == first_nl(content@, pos as int),
        decreases len - k,
    {
        k += 1;
    }
    let st2 = apply_meta_line(content, pos, k, st);
    if k >= len {
        st2
    } else {
        parse_metadata_from(content, k + 1, st2)
    }
}

/// Read the metadata triple (chunk size, compressed size, original
/// size) out of sidecar text. Unknown keys and malformed lines are
/// ignored, a later line overrides an earlier one, and the fallback
/// chunk size with zero sizes stands where no line speaks.
pub fn parse_metadata(content: &str, default_chunk_size: usize) -> (r: (usize, u64, u64))
    ensures
        (r.0 as int, r.1 as int, r.2 as int) == spec_parse_metadata(
            content@,
            default_chunk_size as int,
        ),
{
    parse_metadata_from(content, 0, (default_chunk_size, 0u64, 0u64))
}

/// Render the sidecar text for the given sizes.
pub fn render_metadata(chunk_size: usize, compressed_size: u64, original_size: u64) -> (s: String)
    ensures
        s@ == spec_render_metadata(
            chunk_size as int,
            compressed_size as int,
            original_size as int,
        ),
{
    let mut s = String::from_str("chunk_size=");
    let c = u64_to_string(chunk_size as u64);
    s.append(c.as_str());
    s.append("\n");
    s.append("compressed_size=");
    let e = u64_to_string(compressed_size);
    s.append(e.as_str());
    s.append("\n");
    s.append("original_size=");
    let o = u64_to_string(original_size);
    s.append(o.as_str());
    s.append("\n");
    proof {
        assert(s@ =~= spec_render_metadata(
            chunk_size as int,
            compressed_size as int,
            original_size as int,
        ));
    }
    s
}

impl VideoComposer {
    pub fn new(width: u32, height: u32, fps: u32) -> (r: VideoComposer)
        ensures
            r.width == width,
            r.height == height,
            r.fps == fps,
    {
        VideoComposer { width, height, fps }
    }

    /// All frames for a payload: split it into chunks of `chunk_size`
    /// bytes, zero-pad the last chunk, and encode each chunk as one
    /// frame, in payload order.
    pub fn frames_from_payload(&self, payload: &Vec<u8>, chunk_size: usize) -> (r: Result<
        Vec<Vec<u8>>,
        F2V2FError,
    >)
        ensures
            r is Ok <==> (valid_frame_dims(self.width as int, self.height as int) && 0 < chunk_size
                <= self.width * self.height && payload@.len() > 0),
            r is Ok ==> r->Ok_0.deep_view() == spec_frames_from_payload(
                payload@,
                chunk_size as int,
                self.width as int,
                self.height as int,
            ),
            (r matches Err(F2V2FError::ConfigError(_))) <==> (!valid_frame_dims(
                self.width as int,
                self.height as int,
            ) || chunk_size == 0 || chunk_size > self.width * self.height),
            (r matches Err(F2V2FError::InvalidInput(_))) <==> (valid_frame_dims(
                self.width as int,
                self.height as int,
            ) && 0 < chunk_size <= self.width * self.height && payload@.len() == 0),
    {
        if self.width == 0 || self.width > 7680 || self.height == 0 || self.height > 4320 {
            return Err(
                F2V2FError::ConfigError(String::from_str("frame dimensions out of range")),
            );
        }
        let w: usize = self.width as usize;
        let h: usize = self.height as usize;
        proof {
            assert((w as int) * (h as int) <= 33177600) by (nonlinear_arith)
                requires 1 <= w as int <= 7680, 1 <= h as int <= 4320;
        }
        let n: usize = w * h;
        if chunk_size == 0 || chunk_size > n {
            return Err(
                F2V2FError::ConfigError(
                    String::from_str("chunk size must be nonzero and at most one byte per pixel"),
                ),
            );
        }
        if payload.len() == 0 {
            return Err(
                F2V2FError::InvalidInput(String::from_str("payload must not be empty")),
            );
        }
        let ghost gw = self.width as int;
        let ghost gh = self.height as int;
        let ghost gc = chunk_size as int;
        let plen = payload.len();
        let num_chunks = ceil_div_usize(plen, chunk_size);
        let generator = GeometricArtGenerator::new(self.width, self.height, 42);
        let mut frames: Vec<Vec<u8>> = Vec::new();
        let mut i: usize = 0;
        while i < num_chunks
            invariant
                valid_frame_dims(gw, gh),
                self.width == gw,
                self.height == gh,
                generator.width == gw,
                generator.height == gh,
                n == gw * gh,
                0 < gc <= n,
                gc == chunk_size,
                plen == payload@.len(),
                0 < plen <= usize::MAX,
                num_chunks == spec_ceil_div(plen as int, gc),
                num_chunks <= plen,
                i <= num_chunks,
                frames@.len() == i,
                forall|k: int|
                    0 <= k < i ==> frames@[k]@ == spec_encode_chunk(
                        spec_padded_chunk(payload@, gc, k),
                        gw,
                        gh,
                    ),
            decreases num_chunks - i,
        {
            proof {
                lemma_chunk_start_bound(plen as int, gc, i as int);
            }
            let base = i * chunk_size;
            let mut chunkv: Vec<u8> = Vec::new();
            let mut j: usize = 0;
            while j < chunk_size
                invariant
                    gc == chunk_size,
                    plen == payload@.len(),
                    0 < plen <= usize::MAX,
                    base == i * gc,
                    base < plen,
                    j <= chunk_size,
                    chunkv@.len() == j,
                    forall|t: int|
                        0 <= t < j ==> chunkv@[t] == spec_padded_chunk(payload@, gc, i as int)[t],
                decreases chunk_size - j,
            {
                let remaining = plen - base;
                let b: u8 = if j < remaining {
                    payload[base + j]
                } else {
                    0
                };
                chunkv.push(b);
                j += 1;
            }
            proof {
                assert(chunkv@ =~= spec_padded_chunk(payload@, gc, i as int));
            }
            let frame = match generator.generate_from_data(&chunkv) {
                Ok(f) => f,
                Err(e) => {
                    return Err(e);
                },
            };
            frames.push(frame);
            i += 1;
        }
        proof {
            let spec_frames = spec_frames_from_payload(payload@, gc, gw, gh);
            assert forall|k: int| 0 <= k < num_chunks implies frames.deep_view()[k]
                == spec_frames[k] by {
                assert(frames.deep_view()[k] =~= frames@[k]@);
            }
            assert(frames.deep_view().len() == frames@.len());
            assert(frames.deep_view() =~= spec_frames);
        }
        Ok(frames)
    }
}

impl VideoValidator {
    /// Decide whether a file on disk is a plausible video: it must exist
    /// and be at least 1024 bytes long. The caller reads both facts off
    /// the file system and passes them in.
    pub fn is_valid_video(file_exists: bool, file_size: u64) -> (r: Result<bool, F2V2FError>)
        ensures
            r is Ok <==> (file_exists && file_size >= 1024),
            r is Ok ==> r->Ok_0 == true,
            r is Err ==> (r matches Err(F2V2FError::InvalidInput(_))),
    {
        if !file_exists {
            return Err(F2V2FError::InvalidInput(String::from_str("Video file not found")));
        }
        if file_size < 1024 {
            return Err(
                F2V2FError::InvalidInput(
                    String::from_str("Video file too small (likely corrupted)"),
                ),
            );
        }
        Ok(true)
    }
}

} // verus!
