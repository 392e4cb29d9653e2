use f2v2f::channel::split_frames;
use f2v2f::{ChannelPhase, ComposeSession, F2V2FError};

#[test]
fn session_streams_every_frame_then_drains() {
    let mut s = ComposeSession::new(3);
    assert!(matches!(s.phase, ChannelPhase::NotStarted));
    s.start();
    assert!(matches!(s.phase, ChannelPhase::Streaming));
    assert_eq!(s.next_frame(), Some(0));
    s.record_write();
    assert_eq!(s.next_frame(), Some(1));
    s.record_write();
    s.record_write();
    assert!(matches!(s.phase, ChannelPhase::Draining));
    assert_eq!(s.next_frame(), None);
    assert_eq!(s.frames_written, 3);
    assert!(s.finish(0, String::new()).is_ok());
    assert!(matches!(s.phase, ChannelPhase::Finished));
}

#[test]
fn session_with_nothing_to_write_drains_at_once() {
    let mut s = ComposeSession::new(0);
    s.start();
    assert!(matches!(s.phase, ChannelPhase::Draining));
}

#[test]
fn broken_pipe_reports_the_flushed_frame_count() {
    let mut s = ComposeSession::new(5);
    s.start();
    s.record_write();
    s.record_write();
    s.record_write();
    let e = s.fail_write(true, "boom".to_string());
    match e {
        F2V2FError::EncodingError(m) => {
            assert_eq!(m, "external process pipe broke after 3 of 5 frames: boom");
        },
        other => panic!("unexpected error {:?}", other),
    }
    assert_eq!(s.frames_written, 3);
    assert!(matches!(s.phase, ChannelPhase::Finished));
}

#[test]
fn other_write_failures_name_the_frame() {
    let mut s = ComposeSession::new(2);
    s.start();
    s.record_write();
    let e = s.fail_write(false, "disk full".to_string());
    match e {
        F2V2FError::EncodingError(m) => {
            assert_eq!(m, "frame write failed at frame 1: disk full");
        },
        other => panic!("unexpected error {:?}", other),
    }
}

#[test]
fn spawn_failure_is_reported_before_streaming() {
    let mut s = ComposeSession::new(2);
    let e = s.fail_start("no such executable".to_string());
    match e {
        F2V2FError::EncodingError(m) => {
            assert_eq!(m, "failed to start external process: no such executable");
        },
        other => panic!("unexpected error {:?}", other),
    }
    assert_eq!(s.frames_written, 0);
}

#[test]
fn nonzero_exit_fails_with_diagnostics() {
    let mut s = ComposeSession::new(1);
    s.start();
    s.record_write();
    let r = s.finish(-22, "out of memory".to_string());
    match r {
        Err(F2V2FError::EncodingError(m)) => {
            assert_eq!(m, "external process exited with code -22: out of memory");
        },
        other => panic!("unexpected result {:?}", other),
    }
}

#[test]
fn split_frames_drops_a_trailing_partial_frame() {
    let data: Vec<u8> = (0u8..10).collect();
    let frames = split_frames(&data, 4);
    assert_eq!(frames.len(), 2);
    assert_eq!(frames[0], vec![0, 1, 2, 3]);
    assert_eq!(frames[1], vec![4, 5, 6, 7]);
}

#[test]
fn split_frames_of_exact_multiple_keeps_everything() {
    let data: Vec<u8> = (0u8..8).collect();
    let frames = split_frames(&data, 4);
    assert_eq!(frames.len(), 2);
    assert_eq!(frames[1], vec![4, 5, 6, 7]);
}
