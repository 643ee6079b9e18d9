use stn_updater::framing::FramedIo;
use stn_updater::resetter::{ResetAction, ResetPhase, Resetter};

#[test]
fn test_handshake_happy_path() {
    let mut r = Resetter::new();
    let acts = r.start();
    assert_eq!(acts.len(), 2);
    assert!(matches!(acts[0], ResetAction::ClearInput));
    match &acts[1] {
        ResetAction::Write(bytes) => assert_eq!(bytes, &vec![0x3F, 0x0D]),
        other => panic!("expected a write, got a different action: {:?}", phase_of(other)),
    }

    // Noise before the prompt is skipped.
    assert!(r.on_byte(b'E').is_empty());
    assert!(r.on_byte(b'\r').is_empty());

    let acts = r.on_byte(b'>');
    assert_eq!(acts.len(), 1);
    match &acts[0] {
        ResetAction::Write(bytes) => assert_eq!(bytes, &vec![0x41, 0x54, 0x5A, 0x0D]),
        other => panic!("expected a write, got a different action: {:?}", phase_of(other)),
    }

    assert!(r.on_byte(b'A').is_empty());
    assert!(r.on_byte(b'T').is_empty());
    assert!(r.on_byte(b'Z').is_empty());
    let acts = r.on_byte(b'\r');
    assert_eq!(acts.len(), 1);
    assert!(matches!(acts[0], ResetAction::Sleep(100)));

    let acts = r.on_sleep_done();
    assert_eq!(acts.len(), 1);
    assert!(matches!(acts[0], ResetAction::Succeed));
    assert_eq!(r.phase, ResetPhase::Done);
}

fn phase_of(a: &ResetAction) -> &'static str {
    match a {
        ResetAction::ClearInput => "clear",
        ResetAction::Write(_) => "write",
        ResetAction::Sleep(_) => "sleep",
        ResetAction::Succeed => "succeed",
        ResetAction::Fail => "fail",
    }
}

#[test]
fn test_handshake_times_out() {
    let mut r = Resetter::new();
    let _ = r.start();
    let acts = r.on_timeout();
    assert_eq!(acts.len(), 1);
    assert!(matches!(acts[0], ResetAction::Fail));
    assert_eq!(r.phase, ResetPhase::Failed);
}

#[test]
fn test_handshake_rejects_wrong_echo() {
    let mut r = Resetter::new();
    let _ = r.start();
    let _ = r.on_byte(b'>');
    assert!(r.on_byte(b'A').is_empty());
    let acts = r.on_byte(b'X');
    assert_eq!(acts.len(), 1);
    assert!(matches!(acts[0], ResetAction::Fail));
}

#[test]
fn test_framed_io_buffers_partial_frames() {
    let mut io = FramedIo::new();
    let wire = vec![0x55u8, 0x55, 0x46, 0x02, 0x05, 0x04, 0x01, 0xFB, 0x80, 0x04];
    io.push_bytes(&wire[..4].to_vec());
    assert!(matches!(io.try_next(), Ok(None)));
    io.push_bytes(&wire[4..].to_vec());
    let frame = io.try_next().unwrap().unwrap();
    assert_eq!(frame.command, 0x06);
    assert!(frame.ack);
    assert_eq!(frame.data, vec![0x04, 0x01]);
    assert!(matches!(io.try_next(), Ok(None)));
}

#[test]
fn test_framed_io_clear_drops_pending_bytes() {
    let mut io = FramedIo::new();
    io.push_bytes(&vec![0x55, 0x55, 0x46]);
    io.clear();
    io.push_bytes(&vec![0x55]);
    assert!(matches!(io.try_next(), Ok(None)));
    assert_eq!(io.buf, vec![0x55]);
}

#[test]
fn test_framed_io_writes_encoded_requests() {
    let io = FramedIo::new();
    let frame = stn_updater::codec::RequestFrame::new(0x03, vec![]);
    let bytes = io.write_frame(&frame).unwrap();
    assert_eq!(bytes, vec![0x55, 0x55, 0x03, 0x00, 0x00, 0x59, 0x50, 0x04]);
}
