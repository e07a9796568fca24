//! Bounded accumulation of a child process's output for the completion email.
//!
//! Each of the child's two streams gets its own [`StreamAccumulator`]. Every
//! line the child writes is echoed back unconditionally (live echo is never
//! truncated) while at most [`CAPTURE_CEILING`] bytes in total are retained
//! for the email body; once the ceiling is hit, further bytes are dropped and
//! a single truncation marker is appended to the final text.

use vstd::prelude::*;
use vstd::math::min;
use vstd::string::StringExecFns;

verus! {

/// Shared ceiling, in bytes, on what the stream accumulators together may
/// retain for the completion email.
pub const CAPTURE_CEILING: usize = 500_000;

/// A line as the accumulator counts it: the line's bytes plus the newline
/// that ended it.
pub open spec fn line_unit(line: Seq<u8>) -> Seq<u8> {
    line + seq![10u8]
}

/// The bytes a stream has produced once it has emitted each of `lines`,
/// every line followed by its newline.
pub open spec fn lines_bytes(lines: Seq<Seq<u8>>) -> Seq<u8>
    decreases lines.len(),
{
    if lines.len() == 0 {
        Seq::empty()
    } else {
        lines_bytes(lines.drop_last()) + line_unit(lines.last())
    }
}

/// One stream's bounded accumulator. Its view is the full sequence of bytes
/// the stream has produced so far (every line plus its newline), of which
/// only a ceiling-bounded prefix is physically retained.
pub struct StreamAccumulator {
    data: Vec<u8>,
    total: usize,
    history: Ghost<Seq<u8>>,
}

impl View for StreamAccumulator {
    type V = Seq<u8>;

    closed spec fn view(&self) -> Seq<u8> {
        self.history@
    }
}

impl StreamAccumulator {
    /// The retained bytes are exactly the ceiling-bounded prefix of the
    /// stream's history, and the counter is the history's length saturated
    /// just past the ceiling.
    pub closed spec fn wf(&self) -> bool {
        &&& self.total == min(self.history@.len() as int, CAPTURE_CEILING + 1)
        &&& self.data@ == self.history@.take(
            min(self.history@.len() as int, CAPTURE_CEILING as int),
        )
    }

    pub fn new() -> (r: StreamAccumulator)
        ensures
            r.wf(),
            r@ == Seq::<u8>::empty(),
    {
        let r = StreamAccumulator { data: Vec::new(), total: 0, history: Ghost(Seq::empty()) };
        proof {
            assert(r.data@ =~= r.history@.take(0));
        }
        r
    }

    /// Consume one line the stream produced. The returned bytes are the whole
    /// line, to be echoed live, whatever the accumulator's state: the echo is
    /// never truncated. Of the line and its newline, only what fits under the
    /// ceiling is retained.
    pub fn process_line(&mut self, line: &[u8]) -> (echo: Vec<u8>)
        requires
            old(self).wf(),
        ensures
            final(self).wf(),
            echo@ == line@,
            final(self)@ == old(self)@ + line_unit(line@),
    {
        let echo = vstd::slice::slice_to_vec(line);

        // Count the line and its newline, saturating just past the ceiling.
        if line.len() >= CAPTURE_CEILING + 1 - self.total {
            self.total = CAPTURE_CEILING + 1;
        } else {
            self.total = self.total + line.len() + 1;
        }

        // Retain whatever prefix of the line plus newline still fits.
        if self.data.len() < CAPTURE_CEILING {
            let remaining = CAPTURE_CEILING - self.data.len();
            if line.len() < remaining {
                append_bytes(&mut self.data, line);
                self.data.push(10u8);
            } else {
                let prefix = vstd::slice::slice_subrange(line, 0, remaining);
                append_bytes(&mut self.data, prefix);
            }
        }

        self.history = Ghost(self.history@ + line_unit(line@));
        proof {
            let hn = self.history@;
            assert(self.data@ =~= hn.take(min(hn.len() as int, CAPTURE_CEILING as int)));
        }
        echo
    }
}

/// True when the two streams together produced more than the ceiling.
pub open spec fn capture_exceeded(out_h: Seq<u8>, err_h: Seq<u8>) -> bool {
    out_h.len() + err_h.len() > CAPTURE_CEILING
}

/// The retained capture: stdout's bytes followed by stderr's, cut off at the
/// ceiling.
pub open spec fn combined_capture(out_h: Seq<u8>, err_h: Seq<u8>) -> Seq<u8> {
    (out_h + err_h).take(min((out_h + err_h).len() as int, CAPTURE_CEILING as int))
}

/// The bytes to be retained for the email once both streams have closed:
/// stdout's accumulated bytes, then stderr's, cut off at the shared ceiling.
/// The flag reports whether anything was lost to the ceiling.
pub fn collect_capture(out: &StreamAccumulator, err: &StreamAccumulator) -> (r: (Vec<u8>, bool))
    requires
        out.wf(),
        err.wf(),
    ensures
        r.0@ == combined_capture(out@, err@),
        r.1 == capture_exceeded(out@, err@),
{
    let mut v: Vec<u8> = Vec::new();
    append_bytes(&mut v, out.data.as_slice());
    append_bytes(&mut v, err.data.as_slice());
    v.truncate(CAPTURE_CEILING);
    let exceeded = out.total + err.total > CAPTURE_CEILING;
    proof {
        assert(v@ =~= combined_capture(out@, err@));
    }
    (v, exceeded)
}

/// What `String::from_utf8_lossy` makes of the given bytes.
pub uninterp spec fn lossy_text_of(bytes: Seq<u8>) -> Seq<char>;

/// All bytes are plain ASCII.
pub open spec fn ascii_bytes(b: Seq<u8>) -> bool {
    forall|i: int| 0 <= i < b.len() ==> b[i] < 0x80
}

/// Relies on `String::from_utf8_lossy`: the result is a function of the bytes
/// alone, and ASCII bytes decode to the corresponding characters unchanged.
#[verifier::external_body]
fn utf8_lossy(bytes: &Vec<u8>) -> (r: String)
    ensures
        r@ == lossy_text_of(bytes@),
        ascii_bytes(bytes@) ==> r@ == bytes@.map_values(|b: u8| b as char),
{
    String::from_utf8_lossy(bytes.as_slice()).into_owned()
}

/// The single line appended to a capture that lost bytes to the ceiling.
pub open spec fn truncation_marker() -> Seq<char> {
    "\n... [output truncated for email]"@
}

/// The email-bound text of a finished capture: the retained bytes, decoded
/// permissively, with the truncation marker appended exactly when the streams
/// together exceeded the ceiling.
pub open spec fn capture_text_spec(out_h: Seq<u8>, err_h: Seq<u8>) -> Seq<char> {
    if capture_exceeded(out_h, err_h) {
        lossy_text_of(combined_capture(out_h, err_h)) + truncation_marker()
    } else {
        lossy_text_of(combined_capture(out_h, err_h))
    }
}

/// Decode a finished capture for the email body. Invalid UTF-8 never fails
/// the run: it is decoded permissively.
pub fn capture_text(out: &StreamAccumulator, err: &StreamAccumulator) -> (r: String)
    requires
        out.wf(),
        err.wf(),
    ensures
        r@ == capture_text_spec(out@, err@),
{
    let (bytes, exceeded) = collect_capture(out, err);
    let mut text = utf8_lossy(&bytes);
    if exceeded {
        text.append("\n... [output truncated for email]");
    }
    text
}

/// Law: a run whose streams together produce at most the ceiling is captured
/// in full — stdout's bytes first, then stderr's, with no truncation marker.
pub proof fn lemma_capture_complete(out_h: Seq<u8>, err_h: Seq<u8>)
    requires
        out_h.len() + err_h.len() <= CAPTURE_CEILING,
    ensures
        !capture_exceeded(out_h, err_h),
        combined_capture(out_h, err_h) == out_h + err_h,
        capture_text_spec(out_h, err_h) == lossy_text_of(out_h + err_h),
{
    assert(combined_capture(out_h, err_h) =~= out_h + err_h);
}

/// A stream's history grows by one line unit per processed line, so an
/// accumulator fed `lines` one by one holds `lines_bytes(lines)`.
pub proof fn lemma_lines_bytes_push(lines: Seq<Seq<u8>>, line: Seq<u8>)
    ensures
        lines_bytes(lines.push(line)) == lines_bytes(lines) + line_unit(line),
{
    assert(lines.push(line).drop_last() =~= lines);
    assert(lines.push(line).last() == line);
}

/// Law: a run of stdout lines and stderr lines whose bytes together stay
/// within the ceiling is captured in full — every stdout line first, then
/// every stderr line, with no truncation marker.
pub proof fn lemma_capture_keeps_all_lines(out_lines: Seq<Seq<u8>>, err_lines: Seq<Seq<u8>>)
    requires
        lines_bytes(out_lines).len() + lines_bytes(err_lines).len() <= CAPTURE_CEILING,
    ensures
        !capture_exceeded(lines_bytes(out_lines), lines_bytes(err_lines)),
        combined_capture(lines_bytes(out_lines), lines_bytes(err_lines)) == lines_bytes(out_lines)
            + lines_bytes(err_lines),
        capture_text_spec(lines_bytes(out_lines), lines_bytes(err_lines)) == lossy_text_of(
            lines_bytes(out_lines) + lines_bytes(err_lines),
        ),
{
    lemma_capture_complete(lines_bytes(out_lines), lines_bytes(err_lines));
}

/// Law: a run whose streams together exceed the ceiling retains exactly the
/// ceiling's worth of bytes, and its text ends with the truncation marker.
pub proof fn lemma_capture_truncated(out_h: Seq<u8>, err_h: Seq<u8>)
    requires
        out_h.len() + err_h.len() > CAPTURE_CEILING,
    ensures
        capture_exceeded(out_h, err_h),
        combined_capture(out_h, err_h).len() == CAPTURE_CEILING,
        combined_capture(out_h, err_h) == (out_h + err_h).take(CAPTURE_CEILING as int),
        capture_text_spec(out_h, err_h) == lossy_text_of(
            combined_capture(out_h, err_h),
        ) + truncation_marker(),
{
}

/// What one invocation produced: the child's exit status, the text captured
/// for the email, and the wall-clock runtime in whole seconds. The status is
/// the child's raw code, `-1` standing in where none exists (a signal-killed
/// child); a non-zero code is data, not an error of the runner.
pub struct RunReport {
    pub status_code: i32,
    pub captured: String,
    pub elapsed_secs: u64,
}

/// The report of a run made without capture: the exit status passes through
/// unchanged and the captured text is empty whatever the child wrote.
pub fn report_without_capture(status_code: i32, elapsed_secs: u64) -> (r: RunReport)
    ensures
        r.status_code == status_code,
        r.captured@ == Seq::<char>::empty(),
        r.elapsed_secs == elapsed_secs,
{
    RunReport { status_code, captured: String::new(), elapsed_secs }
}

/// The report of a captured run: the exit status passes through unchanged and
/// the captured text is the two accumulators' finished capture.
pub fn report_with_capture(
    status_code: i32,
    elapsed_secs: u64,
    out: &StreamAccumulator,
    err: &StreamAccumulator,
) -> (r: RunReport)
    requires
        out.wf(),
        err.wf(),
    ensures
        r.status_code == status_code,
        r.captured@ == capture_text_spec(out@, err@),
        r.elapsed_secs == elapsed_secs,
{
    RunReport { status_code, captured: capture_text(out, err), elapsed_secs }
}

/// Append a slice's bytes to a vector.
fn append_bytes(dst: &mut Vec<u8>, src: &[u8])
    ensures
        final(dst)@ == old(dst)@ + src@,
{
    let mut i: usize = 0;
    while i < src.len()
        invariant
            i <= src@.len(),
            dst@ == old(dst)@ + src@.take(i as int),
        decreases src@.len() - i,
    {
        dst.push(src[i]);
        proof {
            assert(old(dst)@ + src@.take(i as int) + seq![src@[i as int]] =~= old(dst)@
                + src@.take(i + 1));
        }
        i = i + 1;
    }
    proof {
        assert(src@.take(src@.len() as int) =~= src@);
    }
}

} // verus!
