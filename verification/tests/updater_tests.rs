use stn_updater::codec::{RequestFrame, ResponseFrame};
use stn_updater::error::Error;
use stn_updater::firmware::{FirmwareImage, FirmwareImageDescriptor};
use stn_updater::updater::{Action, Updater};

fn one_image(device_ids: Vec<u16>, size: u32) -> FirmwareImage {
    FirmwareImage {
        device_ids,
        descriptors: vec![FirmwareImageDescriptor {
            image_type: 0x00,
            next_idx: 0xFF,
            error_idx: 0x00,
            image_offset: 0,
            image_size: size,
        }],
        data: (0..size).map(|i| i as u8).collect(),
    }
}

fn expect_send(acts: &[Action], at: usize) -> (&RequestFrame, u64) {
    // No step ever hands the caller two frames to write.
    let sends = acts
        .iter()
        .filter(|a| matches!(a, Action::Send { .. }))
        .count();
    assert!(sends <= 1);
    match &acts[at] {
        Action::Send { frame, timeout_ms } => (frame, *timeout_ms),
        other => panic!("expected a send, got {:?}", other),
    }
}

fn ack(command: u8, data: Vec<u8>) -> ResponseFrame {
    ResponseFrame::new(true, command, data)
}

fn assert_no_reset(acts: &[Action]) {
    assert!(!acts.iter().any(|a| matches!(a, Action::Reset)));
}

#[test]
fn test_upload_session_two_chunks() {
    let img = one_image(vec![0x1234], 48);
    let image_bytes = img.data.clone();
    let mut m = Updater::new();
    let mut progress: Vec<(u64, u64)> = Vec::new();

    let acts = m.start_upload_firmware(img);
    assert_no_reset(&acts);
    assert_eq!(acts.len(), 1);
    let (frame, timeout) = expect_send(&acts, 0);
    assert_eq!((frame.command, frame.data.clone(), timeout), (0x03, vec![], 1000));

    let acts = m.on_frame(ack(0x03, vec![]));
    assert_no_reset(&acts);
    let (frame, timeout) = expect_send(&acts, 0);
    assert_eq!((frame.command, frame.data.clone(), timeout), (0x07, vec![], 200));

    let acts = m.on_frame(ack(0x07, vec![0x12, 0x34]));
    assert_no_reset(&acts);
    let (frame, _) = expect_send(&acts, 0);
    assert_eq!(frame.command, 0x30);
    assert_eq!(frame.data, vec![0x00, 0x00, 48, 0x01]);

    // The device grants 32-byte chunks; 32 rounded down to a multiple of
    // sixteen stays 32, so the 48 bytes go as two chunks.
    let acts = m.on_frame(ack(0x30, vec![0x00, 32]));
    assert_no_reset(&acts);
    let (frame, timeout) = expect_send(&acts, 0);
    assert_eq!(frame.command, 0x31);
    assert_eq!(timeout, 5000);
    let mut expected = vec![0x00, 0x00];
    expected.extend_from_slice(&image_bytes[0..32]);
    assert_eq!(frame.data, expected);

    let acts = m.on_frame(ack(0x31, vec![0x00, 0x00]));
    assert_no_reset(&acts);
    assert_eq!(acts.len(), 2);
    match &acts[0] {
        Action::Progress { chunk, total } => progress.push((*chunk, *total)),
        other => panic!("expected progress, got {:?}", other),
    }
    let (frame, _) = expect_send(&acts, 1);
    assert_eq!(frame.command, 0x31);
    let mut expected = vec![0x00, 0x01];
    expected.extend_from_slice(&image_bytes[32..48]);
    assert_eq!(frame.data, expected);

    let acts = m.on_frame(ack(0x31, vec![0x00, 0x01]));
    assert_no_reset(&acts);
    assert_eq!(acts.len(), 2);
    match &acts[0] {
        Action::Progress { chunk, total } => progress.push((*chunk, *total)),
        other => panic!("expected progress, got {:?}", other),
    }
    let (frame, timeout) = expect_send(&acts, 1);
    assert_eq!((frame.command, frame.data.clone(), timeout), (0x02, vec![], 200));

    let acts = m.on_frame(ack(0x02, vec![]));
    assert_no_reset(&acts);
    assert_eq!(acts.len(), 1);
    assert!(matches!(acts[0], Action::Succeed));

    assert_eq!(progress, vec![(0, 2), (1, 2)]);
}

#[test]
fn test_timeout_sends_one_resend_then_accepts() {
    let img = one_image(vec![0x1234], 16);
    let mut m = Updater::new();
    let _ = m.start_upload_firmware(img);
    let _ = m.on_frame(ack(0x03, vec![])); // now awaiting the device id

    let acts = m.on_timeout();
    assert_eq!(acts.len(), 2);
    assert!(matches!(acts[0], Action::ClearReadBuffer));
    let (frame, timeout) = expect_send(&acts, 1);
    assert_eq!((frame.command, frame.data.clone(), timeout), (0x01, vec![], 200));

    // The late response arrives after the resend and is accepted.
    let acts = m.on_frame(ack(0x07, vec![0x12, 0x34]));
    let (frame, _) = expect_send(&acts, 0);
    assert_eq!(frame.command, 0x30);
}

#[test]
fn test_resend_budget_exhausts_into_timeout() {
    let img = one_image(vec![0x1234], 16);
    let mut m = Updater::new();
    let _ = m.start_upload_firmware(img);
    let _ = m.on_frame(ack(0x03, vec![]));

    for _ in 0..5 {
        let acts = m.on_timeout();
        let (frame, _) = expect_send(&acts, 1);
        assert_eq!(frame.command, 0x01);
    }
    let acts = m.on_timeout();
    assert_eq!(acts.len(), 2);
    assert!(matches!(acts[0], Action::ClearReadBuffer));
    assert!(matches!(acts[1], Action::Fail(Error::Timeout)));
}

#[test]
fn test_connect_timeout_runs_resetter_then_retries() {
    let img = one_image(vec![0x1234], 16);
    let mut m = Updater::new();
    let _ = m.start_upload_firmware(img);

    let acts = m.on_timeout();
    assert_eq!(acts.len(), 2);
    assert!(matches!(acts[0], Action::ClearReadBuffer));
    assert!(matches!(acts[1], Action::Reset));

    let acts = m.on_reset_result(true);
    let (frame, timeout) = expect_send(&acts, 0);
    assert_eq!((frame.command, timeout), (0x03, 50));

    // A response with the acknowledgement bit clear counts as a failed
    // attempt; the budget allows another quick try.
    let acts = m.on_frame(ResponseFrame::new(false, 0x03, vec![]));
    let (frame, timeout) = expect_send(&acts, 0);
    assert_eq!((frame.command, timeout), (0x03, 50));

    let acts = m.on_frame(ack(0x03, vec![]));
    let (frame, _) = expect_send(&acts, 0);
    assert_eq!(frame.command, 0x07);
}

#[test]
fn test_failed_reset_is_fatal() {
    let img = one_image(vec![0x1234], 16);
    let mut m = Updater::new();
    let _ = m.start_upload_firmware(img);
    let _ = m.on_timeout();
    let acts = m.on_reset_result(false);
    assert_eq!(acts.len(), 1);
    assert!(matches!(acts[0], Action::Fail(Error::Other)));
}

#[test]
fn test_connect_retry_budget_exhausts_into_timeout() {
    let img = one_image(vec![0x1234], 16);
    let mut m = Updater::new();
    let _ = m.start_upload_firmware(img);
    let _ = m.on_timeout();
    let _ = m.on_reset_result(true);
    // One attempt is already in flight; four more remain.
    for _ in 0..4 {
        let acts = m.on_timeout();
        let (frame, _) = expect_send(&acts, 1);
        assert_eq!(frame.command, 0x03);
    }
    let acts = m.on_timeout();
    assert!(matches!(acts[1], Action::Fail(Error::Timeout)));
}

#[test]
fn test_unknown_device_id_skips_upload() {
    let img = one_image(vec![0x1234], 16);
    let mut m = Updater::new();
    let _ = m.start_upload_firmware(img);
    let _ = m.on_frame(ack(0x03, vec![]));
    // The reported identifier is not in the image's set: straight to Reset.
    let acts = m.on_frame(ack(0x07, vec![0x99, 0x99]));
    let (frame, _) = expect_send(&acts, 0);
    assert_eq!(frame.command, 0x02);
    let acts = m.on_frame(ack(0x02, vec![]));
    assert!(matches!(acts[0], Action::Succeed));
}

#[test]
fn test_wrong_chunk_echo_is_retried() {
    let img = one_image(vec![0x1234], 16);
    let image_bytes = img.data.clone();
    let mut m = Updater::new();
    let _ = m.start_upload_firmware(img);
    let _ = m.on_frame(ack(0x03, vec![]));
    let _ = m.on_frame(ack(0x07, vec![0x12, 0x34]));
    let _ = m.on_frame(ack(0x30, vec![0x00, 32]));

    // The device echoes the wrong index: the same chunk is sent again.
    let acts = m.on_frame(ack(0x31, vec![0x00, 0x05]));
    assert_eq!(acts.len(), 1);
    let (frame, _) = expect_send(&acts, 0);
    assert_eq!(frame.command, 0x31);
    let mut expected = vec![0x00, 0x00];
    expected.extend_from_slice(&image_bytes);
    assert_eq!(frame.data, expected);

    // The right echo settles the chunk; the single-chunk image finishes.
    let acts = m.on_frame(ack(0x31, vec![0x00, 0x00]));
    assert!(matches!(acts[0], Action::Progress { chunk: 0, total: 1 }));
    let (frame, _) = expect_send(&acts, 1);
    assert_eq!(frame.command, 0x02);
}

#[test]
fn test_protocol_error_on_devid_is_fatal() {
    let img = one_image(vec![0x1234], 16);
    let mut m = Updater::new();
    let _ = m.start_upload_firmware(img);
    let _ = m.on_frame(ack(0x03, vec![]));
    let acts = m.on_frame(ResponseFrame::new(true, 0x06, vec![0x12, 0x34]));
    assert_eq!(acts.len(), 1);
    assert!(matches!(acts[0], Action::Fail(Error::InvalidCommand(_))));
}

#[test]
fn test_decode_error_surfaces_without_resend() {
    let img = one_image(vec![0x1234], 16);
    let mut m = Updater::new();
    let _ = m.start_upload_firmware(img);
    let _ = m.on_frame(ack(0x03, vec![]));
    let acts = m.on_decode_error(Error::BadCrc);
    assert_eq!(acts.len(), 1);
    assert!(matches!(acts[0], Action::Fail(Error::BadCrc)));
}

#[test]
fn test_decode_error_during_chunk_spends_an_attempt() {
    let img = one_image(vec![0x1234], 16);
    let image_bytes = img.data.clone();
    let mut m = Updater::new();
    let _ = m.start_upload_firmware(img);
    let _ = m.on_frame(ack(0x03, vec![]));
    let _ = m.on_frame(ack(0x07, vec![0x12, 0x34]));
    let _ = m.on_frame(ack(0x30, vec![0x00, 32]));
    // Garbage on the wire costs one chunk attempt: the stale bytes are
    // dropped and the same chunk goes out again.
    let acts = m.on_decode_error(Error::BadFraming);
    assert_eq!(acts.len(), 2);
    assert!(matches!(acts[0], Action::ClearReadBuffer));
    let (frame, _) = expect_send(&acts, 1);
    assert_eq!(frame.command, 0x31);
    let mut expected = vec![0x00, 0x00];
    expected.extend_from_slice(&image_bytes);
    assert_eq!(frame.data, expected);
}

#[test]
fn test_unsupported_descriptor_kind_fails_the_session() {
    let img = FirmwareImage {
        device_ids: vec![0x1234],
        descriptors: vec![
            FirmwareImageDescriptor {
                image_type: 0x01,
                next_idx: 0x01,
                error_idx: 0x00,
                image_offset: 0,
                image_size: 16,
            },
            FirmwareImageDescriptor {
                image_type: 0x00,
                next_idx: 0xFF,
                error_idx: 0x00,
                image_offset: 16,
                image_size: 16,
            },
        ],
        data: vec![0xAA; 32],
    };
    let mut m = Updater::new();
    let _ = m.start_upload_firmware(img);
    let _ = m.on_frame(ack(0x03, vec![]));
    let _ = m.on_frame(ack(0x07, vec![0x12, 0x34]));
    let _ = m.on_frame(ack(0x30, vec![0x00, 32]));
    let acts = m.on_frame(ack(0x31, vec![0x00, 0x00]));
    assert_no_reset(&acts);
    assert_eq!(acts.len(), 2);
    assert!(matches!(acts[0], Action::Progress { chunk: 0, total: 1 }));
    assert!(matches!(acts[1], Action::Fail(Error::Unsupported)));
}

#[test]
fn test_multi_descriptor_image_walks_the_chain() {
    let img = FirmwareImage {
        device_ids: vec![0x1234],
        descriptors: vec![
            FirmwareImageDescriptor {
                image_type: 0x00,
                next_idx: 0x01,
                error_idx: 0x00,
                image_offset: 0,
                image_size: 16,
            },
            FirmwareImageDescriptor {
                image_type: 0x00,
                next_idx: 0xFF,
                error_idx: 0x00,
                image_offset: 16,
                image_size: 16,
            },
        ],
        data: (0..32).collect(),
    };
    let mut m = Updater::new();
    let _ = m.start_upload_firmware(img);
    let _ = m.on_frame(ack(0x03, vec![]));
    let _ = m.on_frame(ack(0x07, vec![0x12, 0x34]));
    let _ = m.on_frame(ack(0x30, vec![0x00, 32]));
    // Finishing the first descriptor's only chunk opens the second.
    let acts = m.on_frame(ack(0x31, vec![0x00, 0x00]));
    let (frame, _) = expect_send(&acts, 1);
    assert_eq!(frame.command, 0x30);
    assert_eq!(frame.data, vec![0x00, 0x00, 16, 0x01]);
    let _ = m.on_frame(ack(0x30, vec![0x00, 32]));
    let acts = m.on_frame(ack(0x31, vec![0x00, 0x00]));
    let (frame, _) = expect_send(&acts, 1);
    assert_eq!(frame.command, 0x02);
}

#[test]
fn test_tiny_chunk_grant_fails_the_session() {
    let img = one_image(vec![0x1234], 16);
    let mut m = Updater::new();
    let _ = m.start_upload_firmware(img);
    let _ = m.on_frame(ack(0x03, vec![]));
    let _ = m.on_frame(ack(0x07, vec![0x12, 0x34]));
    // A grant under sixteen rounds down to zero: no chunk can be formed.
    let acts = m.on_frame(ack(0x30, vec![0x00, 9]));
    assert_eq!(acts.len(), 1);
    assert!(matches!(acts[0], Action::Fail(Error::Unsupported)));
}

#[test]
fn test_invalid_image_never_starts() {
    let img = FirmwareImage {
        device_ids: vec![0x1234],
        descriptors: vec![FirmwareImageDescriptor {
            image_type: 0x00,
            next_idx: 0x00, // points at itself: a cycle
            error_idx: 0x00,
            image_offset: 0,
            image_size: 4,
        }],
        data: vec![0; 4],
    };
    let mut m = Updater::new();
    let acts = m.start_upload_firmware(img);
    assert_eq!(acts.len(), 1);
    assert!(matches!(acts[0], Action::Fail(Error::Unsupported)));
}
