use notify::capture::{
    capture_text, collect_capture, report_with_capture, report_without_capture, StreamAccumulator,
    CAPTURE_CEILING,
};

const MARKER: &str = "\n... [output truncated for email]";

#[test]
fn small_output_is_captured_in_full() {
    let mut out = StreamAccumulator::new();
    let mut err = StreamAccumulator::new();
    out.process_line(b"first stdout line");
    out.process_line(b"second stdout line");
    err.process_line(b"one stderr line");
    let text = capture_text(&out, &err);
    assert_eq!(text, "first stdout line\nsecond stdout line\none stderr line\n");
    assert!(!text.ends_with(MARKER));
}

#[test]
fn empty_streams_give_empty_text() {
    let out = StreamAccumulator::new();
    let err = StreamAccumulator::new();
    assert_eq!(capture_text(&out, &err), "");
}

#[test]
fn oversized_output_is_cut_at_the_ceiling() {
    let mut out = StreamAccumulator::new();
    let err = StreamAccumulator::new();
    let line = vec![b'x'; CAPTURE_CEILING + 100_000];
    out.process_line(&line);
    let (bytes, exceeded) = collect_capture(&out, &err);
    assert!(exceeded);
    assert_eq!(bytes.len(), CAPTURE_CEILING);
    let text = capture_text(&out, &err);
    assert_eq!(text.len(), CAPTURE_CEILING + MARKER.len());
    assert!(text.ends_with(MARKER));
}

#[test]
fn line_exactly_at_the_ceiling_leaves_no_room_for_its_newline() {
    let mut out = StreamAccumulator::new();
    let err = StreamAccumulator::new();
    let line = vec![b'y'; CAPTURE_CEILING];
    out.process_line(&line);
    let (bytes, exceeded) = collect_capture(&out, &err);
    // The line itself fits exactly; its newline is what went over.
    assert_eq!(bytes.len(), CAPTURE_CEILING);
    assert!(bytes.iter().all(|b| *b == b'y'));
    assert!(exceeded);
}

#[test]
fn ceiling_is_shared_across_both_streams() {
    let mut out = StreamAccumulator::new();
    let mut err = StreamAccumulator::new();
    // stdout's line plus newline fills the ceiling exactly.
    let line = vec![b'a'; CAPTURE_CEILING - 1];
    out.process_line(&line);
    err.process_line(b"z");
    let (bytes, exceeded) = collect_capture(&out, &err);
    assert!(exceeded);
    assert_eq!(bytes.len(), CAPTURE_CEILING);
    // Nothing of stderr survives: stdout came first.
    assert_eq!(bytes[CAPTURE_CEILING - 1], b'\n');
    assert!(bytes[..CAPTURE_CEILING - 1].iter().all(|b| *b == b'a'));
    let text = capture_text(&out, &err);
    assert!(text.ends_with(MARKER));
    assert_eq!(text.len(), CAPTURE_CEILING + MARKER.len());
}

#[test]
fn just_under_the_ceiling_has_no_marker() {
    let mut out = StreamAccumulator::new();
    let err = StreamAccumulator::new();
    let line = vec![b'b'; CAPTURE_CEILING - 1];
    out.process_line(&line);
    let (bytes, exceeded) = collect_capture(&out, &err);
    assert!(!exceeded);
    assert_eq!(bytes.len(), CAPTURE_CEILING);
    let text = capture_text(&out, &err);
    assert!(!text.ends_with(MARKER));
    assert_eq!(text.len(), CAPTURE_CEILING);
}

#[test]
fn live_echo_is_never_truncated() {
    let mut out = StreamAccumulator::new();
    let big = vec![b'x'; 2 * CAPTURE_CEILING];
    let echo = out.process_line(&big);
    assert_eq!(echo.len(), 2 * CAPTURE_CEILING);
    // The accumulator is full; the echo still carries every byte.
    let late = vec![b'y'; CAPTURE_CEILING];
    let echo2 = out.process_line(&late);
    assert_eq!(echo2, late);
    let err = StreamAccumulator::new();
    let (bytes, exceeded) = collect_capture(&out, &err);
    assert_eq!(bytes.len(), CAPTURE_CEILING);
    assert!(exceeded);
}

#[test]
fn invalid_utf8_is_decoded_permissively() {
    let mut out = StreamAccumulator::new();
    let err = StreamAccumulator::new();
    out.process_line(&[b'o', b'k', 0xff, b'!']);
    let text = capture_text(&out, &err);
    assert_eq!(text, "ok\u{fffd}!\n");
}

#[test]
fn exit_status_passes_through_unchanged() {
    for code in [0i32, 1, 127, -1] {
        let r = report_without_capture(code, 3);
        assert_eq!(r.status_code, code);
        let out = StreamAccumulator::new();
        let err = StreamAccumulator::new();
        let rc = report_with_capture(code, 3, &out, &err);
        assert_eq!(rc.status_code, code);
    }
}

#[test]
fn without_capture_the_text_is_always_empty() {
    let r = report_without_capture(0, 123);
    assert_eq!(r.captured, "");
    assert_eq!(r.elapsed_secs, 123);
    let r2 = report_without_capture(127, 0);
    assert_eq!(r2.captured, "");
}

#[test]
fn captured_report_carries_the_capture() {
    let mut out = StreamAccumulator::new();
    let err = StreamAccumulator::new();
    out.process_line(b"hello");
    let r = report_with_capture(0, 1, &out, &err);
    assert_eq!(r.captured, "hello\n");
    assert_eq!(r.elapsed_secs, 1);
}
