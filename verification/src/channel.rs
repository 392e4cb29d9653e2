//! The frame channel's write-path state machine and the read-path
//! frame splitter.
//!
//! The external process that performs the lossy video transform lives
//! outside this crate; callers spawn it, pipe frames, and report each
//! outcome back as an event. The session decides what those events mean
//! and words every failure, so a broken pipe always reports exactly how
//! many frames were flushed before it — never the full expected count.

use vstd::prelude::*;
use vstd::string::*;
use vstd::arithmetic::div_mod::*;
use vstd::arithmetic::mul::lemma_mul_inequality;
use vstd::slice::{slice_subrange, slice_to_vec};
use crate::decimal::{spec_dec_digits, u64_to_string};
use crate::error::F2V2FError;

verus! {

broadcast use
    vstd::arithmetic::div_mod::lemma_mod_bound,
    vstd::arithmetic::div_mod::lemma_div_pos_is_pos;

/// Where a compose run stands.
#[derive(Debug, Clone, Copy, PartialEq, Eq, Structural)]
pub enum ChannelPhase {
    /// The external process has not been spawned yet.
    NotStarted,
    /// Frames are being written to the process's input.
    Streaming,
    /// All frames are written; the input is closed and the process is
    /// waited on.
    Draining,
    /// The run ended, successfully or not.
    Finished,
}

/// One encode invocation's progress through the frame channel.
pub struct ComposeSession {
    pub total_frames: usize,
    pub frames_written: usize,
    pub phase: ChannelPhase,
}

/// Message reported when the pipe to the external process breaks after
/// `written` of `total` frames.
pub open spec fn spec_broken_pipe_message(written: int, total: int, detail: Seq<char>) -> Seq<
    char,
> {
    "external process pipe broke after "@ + spec_dec_digits(written) + " of "@ + spec_dec_digits(
        total,
    ) + " frames: "@ + detail
}

/// Message reported when a frame write fails for any other reason.
pub open spec fn spec_write_failure_message(written: int, detail: Seq<char>) -> Seq<char> {
    "frame write failed at frame "@ + spec_dec_digits(written) + ": "@ + detail
}

/// Message reported when the external process cannot be spawned.
pub open spec fn spec_spawn_failure_message(detail: Seq<char>) -> Seq<char> {
    "failed to start external process: "@ + detail
}

/// Message reported when the external process exits with a nonzero
/// code after draining.
pub open spec fn spec_exit_failure_message(code: int, diagnostics: Seq<char>) -> Seq<char> {
    "external process exited with code "@ + spec_int_digits(code) + ": "@ + diagnostics
}

/// Decimal rendering of a possibly negative value.
pub open spec fn spec_int_digits(n: int) -> Seq<char> {
    if n < 0 {
        "-"@ + spec_dec_digits(-n)
    } else {
        spec_dec_digits(n)
    }
}

/// Render a possibly negative exit code in decimal.
fn i32_to_string(n: i32) -> (s: String)
    ensures
        s@ == spec_int_digits(n as int),
{
    if n < 0 {
        let mag = (-(n as i64)) as u64;
        let mut s = String::from_str("-");
        let digits = u64_to_string(mag);
        s.append(digits.as_str());
        proof {
            assert(s@ =~= spec_int_digits(n as int));
        }
        s
    } else {
        u64_to_string(n as u64)
    }
}

impl ComposeSession {
    /// A session never counts more written frames than it has frames,
    /// and its phase agrees with that count.
    pub open spec fn wf(&self) -> bool {
        &&& self.frames_written <= self.total_frames
        &&& (self.phase is NotStarted ==> self.frames_written == 0)
        &&& (self.phase is Draining ==> self.frames_written == self.total_frames)
    }

    pub fn new(total_frames: usize) -> (s: ComposeSession)
        ensures
            s.wf(),
            s.total_frames == total_frames,
            s.frames_written == 0,
            s.phase is NotStarted,
    {
        ComposeSession { total_frames, frames_written: 0, phase: ChannelPhase::NotStarted }
    }

    /// The external process spawned: begin streaming, or go straight to
    /// draining when there is nothing to write.
    pub fn start(&mut self)
        requires
            old(self).wf(),
            old(self).phase is NotStarted,
        ensures
            final(self).wf(),
            final(self).total_frames == old(self).total_frames,
            final(self).frames_written == 0,
            old(self).total_frames == 0 ==> final(self).phase is Draining,
            old(self).total_frames > 0 ==> final(self).phase is Streaming,
    {
        if self.total_frames == 0 {
            self.phase = ChannelPhase::Draining;
        } else {
            self.phase = ChannelPhase::Streaming;
        }
    }

    /// Spawning the external process failed; nothing was streamed.
    pub fn fail_start(&mut self, detail: String) -> (e: F2V2FError)
        requires
            old(self).wf(),
            old(self).phase is NotStarted,
        ensures
            final(self).wf(),
            final(self).phase is Finished,
            final(self).total_frames == old(self).total_frames,
            final(self).frames_written == 0,
            e matches F2V2FError::EncodingError(m) && m@ == spec_spawn_failure_message(detail@),
    {
        self.phase = ChannelPhase::Finished;
        let mut m = String::from_str("failed to start external process: ");
        m.append(detail.as_str());
        proof {
            assert(m@ =~= spec_spawn_failure_message(detail@));
        }
        F2V2FError::EncodingError(m)
    }

    /// Index of the next frame to write, if streaming is in progress.
    pub fn next_frame(&self) -> (r: Option<usize>)
        requires
            self.wf(),
        ensures
            (self.phase is Streaming && self.frames_written < self.total_frames) <==> (r
                == Some(self.frames_written)),
            !(self.phase is Streaming && self.frames_written < self.total_frames) <==> (r
                is None),
    {
        match self.phase {
            ChannelPhase::Streaming => {
                if self.frames_written < self.total_frames {
                    Some(self.frames_written)
                } else {
                    None
                }
            },
            _ => None,
        }
    }

    /// One frame was flushed to the external process.
    pub fn record_write(&mut self)
        requires
            old(self).wf(),
            old(self).phase is Streaming,
            old(self).frames_written < old(self).total_frames,
        ensures
            final(self).wf(),
            final(self).total_frames == old(self).total_frames,
            final(self).frames_written == old(self).frames_written + 1,
            final(self).frames_written == final(self).total_frames <==> final(self).phase
                is Draining,
            final(self).frames_written < final(self).total_frames <==> final(self).phase
                is Streaming,
    {
        self.frames_written = self.frames_written + 1;
        if self.frames_written == self.total_frames {
            self.phase = ChannelPhase::Draining;
        }
    }

    /// A frame write failed. A broken pipe means the external process
    /// died mid-stream; either way the error reports how many frames
    /// were flushed before the failure.
    pub fn fail_write(&mut self, broken_pipe: bool, detail: String) -> (e: F2V2FError)
        requires
            old(self).wf(),
            old(self).phase is Streaming,
        ensures
            final(self).wf(),
            final(self).phase is Finished,
            final(self).total_frames == old(self).total_frames,
            final(self).frames_written == old(self).frames_written,
            broken_pipe ==> (e matches F2V2FError::EncodingError(m) && m@
                == spec_broken_pipe_message(
                old(self).frames_written as int,
                old(self).total_frames as int,
                detail@,
            )),
            !broken_pipe ==> (e matches F2V2FError::EncodingError(m) && m@
                == spec_write_failure_message(old(self).frames_written as int, detail@)),
    {
        self.phase = ChannelPhase::Finished;
        let written = u64_to_string(self.frames_written as u64);
        if broken_pipe {
            let total = u64_to_string(self.total_frames as u64);
            let mut m = String::from_str("external process pipe broke after ");
            m.append(written.as_str());
            m.append(" of ");
            m.append(total.as_str());
            m.append(" frames: ");
            m.append(detail.as_str());
            proof {
                assert(m@ =~= spec_broken_pipe_message(
                    self.frames_written as int,
                    self.total_frames as int,
                    detail@,
                ));
            }
            F2V2FError::EncodingError(m)
        } else {
            let mut m = String::from_str("frame write failed at frame ");
            m.append(written.as_str());
            m.append(": ");
            m.append(detail.as_str());
            proof {
                assert(m@ =~= spec_write_failure_message(self.frames_written as int, detail@));
            }
            F2V2FError::EncodingError(m)
        }
    }

    /// The external process exited after draining. Exit code zero ends
    /// the run cleanly; anything else fails with the captured
    /// diagnostics.
    pub fn finish(&mut self, exit_code: i32, diagnostics: String) -> (r: Result<(), F2V2FError>)
        requires
            old(self).wf(),
            old(self).phase is Draining,
        ensures
            final(self).wf(),
            final(self).phase is Finished,
            final(self).total_frames == old(self).total_frames,
            final(self).frames_written == old(self).frames_written,
            r is Ok <==> exit_code == 0,
            exit_code != 0 ==> (r matches Err(F2V2FError::EncodingError(m)) && m@
                == spec_exit_failure_message(exit_code as int, diagnostics@)),
    {
        self.phase = ChannelPhase::Finished;
        if exit_code == 0 {
            Ok(())
        } else {
            let code = i32_to_string(exit_code);
            let mut m = String::from_str("external process exited with code ");
            m.append(code.as_str());
            m.append(": ");
            m.append(diagnostics.as_str());
            proof {
                assert(m@ =~= spec_exit_failure_message(exit_code as int, diagnostics@));
            }
            Err(F2V2FError::EncodingError(m))
        }
    }
}

/// The fixed-size frames contained in a raw byte stream; a trailing
/// partial frame marks end-of-stream and carries no payload.
pub open spec fn spec_split_frames(data: Seq<u8>, frame_size: int) -> Seq<Seq<u8>> {
    Seq::new(
        (data.len() as int / frame_size) as nat,
        |i: int| data.subrange(i * frame_size, (i + 1) * frame_size),
    )
}

/// Split the byte stream pulled from the external process into frames
/// of exactly `frame_size` bytes, dropping a trailing partial frame.
pub fn split_frames(data: &Vec<u8>, frame_size: usize) -> (r: Vec<Vec<u8>>)
    requires
        frame_size >= 1,
    ensures
        r.deep_view() == spec_split_frames(data@, frame_size as int),
{
    let count = data.len() / frame_size;
    let mut out: Vec<Vec<u8>> = Vec::new();
    let mut i: usize = 0;
    proof {
        let dl = data@.len() as int;
        let fs = frame_size as int;
        lemma_fundamental_div_mod(dl, fs);
        assert(dl == fs * (dl / fs) + (dl % fs));
        assert(0 <= dl % fs);
        assert(count == dl / fs);
        assert(count * frame_size <= data@.len()) by (nonlinear_arith)
            requires
                dl == fs * (dl / fs) + (dl % fs),
                0 <= dl % fs,
                count == dl / fs,
                fs == frame_size as int,
                dl == data@.len() as int;
    }
    while i < count
        invariant
            frame_size >= 1,
            data@.len() <= usize::MAX,
            count == data@.len() as int / frame_size as int,
            count * frame_size <= data@.len(),
            i <= count,
            out@.len() == i,
            forall|j: int|
                0 <= j < i ==> out@[j]@ == data@.subrange(
                    j * (frame_size as int),
                    (j + 1) * (frame_size as int),
                ),
        decreases count - i,
    {
        proof {
            lemma_mul_inequality(i + 1, count as int, frame_size as int);
            lemma_mul_inequality(i as int, i + 1, frame_size as int);
            assert((i + 1) * (frame_size as int) == i * (frame_size as int) + frame_size)
                by (nonlinear_arith);
        }
        let start = i * frame_size;
        let stop = start + frame_size;
        let frame: Vec<u8> = slice_to_vec(slice_subrange(data.as_slice(), start, stop));
        let ghost fv = frame@;
        out.push(frame);
        proof {
            assert(out@[i as int]@ == fv);
        }
        i += 1;
    }
    proof {
        let spec_frames = spec_split_frames(data@, frame_size as int);
        assert forall|j: int| 0 <= j < count implies out.deep_view()[j] == spec_frames[j] by {
            assert(out.deep_view()[j] =~= out@[j]@);
            assert(spec_frames[j] == data@.subrange(
                j * (frame_size as int),
                (j + 1) * (frame_size as int),
            ));
        }
        assert(out.deep_view().len() == out@.len());
        assert(out.deep_view() =~= spec_frames);
    }
    out
}

} // verus!
