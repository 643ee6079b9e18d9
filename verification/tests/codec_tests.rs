use stn_updater::codec::{RequestFrame, ResponseFrame, SerialCodec};
use stn_updater::crc::crc16_exec;
use stn_updater::error::Error;

#[test]
fn test_encoder() {
    let codec = SerialCodec::new();

    let bytes = codec
        .encode(&RequestFrame::new(0x03, vec![]))
        .unwrap();
    assert_eq!(bytes, vec![0x55, 0x55, 0x03, 0x00, 0x00, 0x59, 0x50, 0x04]);

    let bytes = codec
        .encode(&RequestFrame::new(0x31, vec![0x00, 0x00, 0x05, 0x05, 0x03]))
        .unwrap();
    assert_eq!(
        bytes,
        vec![
            0x55, 0x55, 0x31, 0x00, 0x05, 0x05, 0x00, 0x00, 0x05, 0x05, 0x05, 0x05, 0x03, 0x66,
            0x68, 0x04
        ]
    );
}

#[test]
fn test_encoder_rejects_oversize_payload() {
    let codec = SerialCodec::new();
    let r = codec.encode(&RequestFrame::new(0x03, vec![0u8; 256]));
    assert!(matches!(r, Err(Error::BadFraming)));
}

#[test]
fn test_decoder() {
    let codec = SerialCodec::new();
    let mut buf = vec![0x55, 0x55, 0x46, 0x02, 0x05, 0x04, 0x01, 0xFB, 0x80, 0x04];
    let frame = codec.decode(&mut buf).unwrap().unwrap();
    assert_eq!(frame, ResponseFrame::new(true, 0x06, vec![0x04, 0x01]));
    assert!(buf.is_empty());
}

#[test]
fn test_decoder_rejects_bad_preamble() {
    let codec = SerialCodec::new();
    let mut buf = vec![0x55, 0x00, 0x46, 0x02, 0x04, 0x01, 0xFB, 0x80, 0x04];
    assert!(matches!(codec.decode(&mut buf), Err(Error::BadFraming)));
}

#[test]
fn test_decoder_rejects_unexpected_stx() {
    let codec = SerialCodec::new();
    let mut buf = vec![0x55, 0x55, 0x46, 0x55, 0x04];
    assert!(matches!(codec.decode(&mut buf), Err(Error::BadFraming)));
}

#[test]
fn test_decoder_needs_more_bytes() {
    let codec = SerialCodec::new();
    let mut buf = vec![0x55];
    assert!(matches!(codec.decode(&mut buf), Ok(None)));
    let mut buf = vec![0x55, 0x55, 0x46, 0x02, 0x05, 0x04, 0x01, 0xFB];
    assert!(matches!(codec.decode(&mut buf), Ok(None)));
    assert_eq!(buf.len(), 8);
}

#[test]
fn test_decoder_rejects_bad_crc() {
    let codec = SerialCodec::new();
    // Same frame as test_decoder with the last payload byte corrupted.
    let mut buf = vec![0x55, 0x55, 0x46, 0x02, 0x05, 0x04, 0x02, 0xFB, 0x80, 0x04];
    assert!(matches!(codec.decode(&mut buf), Err(Error::BadCrc)));
}

#[test]
fn test_decoder_rejects_bad_length_field() {
    let codec = SerialCodec::new();
    // An encoded request carries a two-byte length, which the decoder
    // rejects as badly framed.
    let codec2 = SerialCodec::new();
    let mut buf = codec2.encode(&RequestFrame::new(0x03, vec![])).unwrap();
    assert!(matches!(codec.decode(&mut buf), Err(Error::BadFraming)));
}

#[test]
fn test_response_round_trip() {
    let codec = SerialCodec::new();
    let frame = ResponseFrame::new(true, 0x06, vec![0x04, 0x01]);
    let mut wire = codec.encode_response(&frame).unwrap();
    assert_eq!(wire, vec![0x55, 0x55, 0x46, 0x02, 0x05, 0x04, 0x01, 0xFB, 0x80, 0x04]);
    let decoded = codec.decode(&mut wire).unwrap().unwrap();
    assert_eq!(decoded, ResponseFrame::new(true, 0x06, vec![0x04, 0x01]));
}

#[test]
fn test_response_round_trip_with_special_bytes() {
    let codec = SerialCodec::new();
    // Payload holds every special byte; stuffing must hide them all.
    let frame = ResponseFrame::new(false, 0x15, vec![0x55, 0x04, 0x05, 0x00]);
    let mut wire = codec.encode_response(&frame).unwrap();
    let decoded = codec.decode(&mut wire).unwrap().unwrap();
    assert_eq!(decoded, ResponseFrame::new(false, 0x15, vec![0x55, 0x04, 0x05, 0x00]));
    assert!(wire.is_empty());
}

#[test]
fn test_decoder_consumes_only_one_frame() {
    let codec = SerialCodec::new();
    let mut wire = codec
        .encode_response(&ResponseFrame::new(true, 0x02, vec![]))
        .unwrap();
    let mut second = codec
        .encode_response(&ResponseFrame::new(true, 0x03, vec![]))
        .unwrap();
    wire.append(&mut second);
    let first = codec.decode(&mut wire).unwrap().unwrap();
    assert_eq!(first.command, 0x02);
    let rest = codec.decode(&mut wire).unwrap().unwrap();
    assert_eq!(rest.command, 0x03);
    assert!(wire.is_empty());
}

#[test]
fn test_crc_matches_reference_implementation() {
    let reference = crc::Crc::<u16>::new(&crc::CRC_16_XMODEM);
    let cases: Vec<Vec<u8>> = vec![
        vec![],
        vec![0x00],
        vec![0x03, 0x00, 0x00],
        vec![0x31, 0x00, 0x05, 0x00, 0x00, 0x05, 0x05, 0x03],
        (0u8..=255).collect(),
        vec![0xFF; 300],
    ];
    for case in cases {
        assert_eq!(crc16_exec(&case), reference.checksum(&case));
    }
}

#[test]
fn test_crc_of_message_with_digest_is_zero() {
    let msg = vec![0x46, 0x02, 0x04, 0x01];
    let digest = crc16_exec(&msg);
    let mut with_digest = msg.clone();
    with_digest.push((digest >> 8) as u8);
    with_digest.push((digest & 0xFF) as u8);
    assert_eq!(crc16_exec(&with_digest), 0);
}

#[test]
fn test_single_bit_flips_are_rejected() {
    let codec = SerialCodec::new();
    let wire = codec
        .encode_response(&ResponseFrame::new(true, 0x06, vec![0x04, 0x01]))
        .unwrap();
    // Flip every bit of every byte between the preamble and the terminator;
    // none may decode to a frame (stuffed frames here have no escape bytes
    // except the escaped 0x04 payload byte, whose escape may legitimately
    // change the parse, so skip the escape byte itself).
    for pos in 2..wire.len() - 1 {
        if wire[pos] == 0x05 && pos == 4 {
            continue; // the DLE escape byte itself
        }
        for bit in 0..8 {
            let mut corrupted = wire.clone();
            corrupted[pos] ^= 1 << bit;
            let mut buf = corrupted;
            match codec.decode(&mut buf) {
                Err(Error::BadCrc) | Err(Error::BadFraming) | Ok(None) => {}
                other => panic!("corrupted frame accepted: {:?}", other),
            }
        }
    }
}
