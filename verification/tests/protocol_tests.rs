use stn_updater::codec::ResponseFrame;
use stn_updater::error::Error;
use stn_updater::protocol::{
    from_frame, ConnectRequest, GetDevIDRequest, GetDevIDResponse, GetDeviceNameRequest,
    GetDeviceNameResponse, GetFWStatusRequest, GetFWStatusResponse, GetHWRevRequest,
    GetHWRevResponse, GetSerialNumberRequest, GetSerialNumberResponse, GetVersionRequest,
    GetVersionResponse, Request, ResendLastRequest, ResetRequest, SendChunkRequest,
    SendChunkResponse, StartUploadRequest, StartUploadResponse,
};

#[test]
fn test_request_frames_carry_their_commands() {
    assert_eq!(ConnectRequest.frame().command, 0x03);
    assert_eq!(ConnectRequest.frame().data, vec![]);
    assert_eq!(ResetRequest.frame().command, 0x02);
    assert_eq!(GetVersionRequest.frame().command, 0x06);
    assert_eq!(GetDevIDRequest.frame().command, 0x07);
    assert_eq!(GetSerialNumberRequest.frame().command, 0x0A);
    assert_eq!(GetDeviceNameRequest.frame().command, 0x0B);
    let resend = ResendLastRequest::<GetDevIDResponse>::new().frame();
    assert_eq!(resend.command, 0x01);
    assert_eq!(resend.data, vec![]);
}

#[test]
fn test_start_upload_payload_is_u24_and_mode() {
    let frame = StartUploadRequest { image_size: 48, mode: 1 }.frame();
    assert_eq!(frame.command, 0x30);
    assert_eq!(frame.data, vec![0x00, 0x00, 48, 1]);

    let frame = StartUploadRequest { image_size: 0x00ABCDEF, mode: 2 }.frame();
    assert_eq!(frame.data, vec![0xAB, 0xCD, 0xEF, 2]);

    // Only the low three bytes of the size go on the wire.
    let frame = StartUploadRequest { image_size: 0xFFABCDEF, mode: 1 }.frame();
    assert_eq!(frame.data, vec![0xAB, 0xCD, 0xEF, 1]);
}

#[test]
fn test_send_chunk_payload_is_index_then_data() {
    let frame = SendChunkRequest { chunk_num: 0x0102, data: vec![9, 8, 7] }.frame();
    assert_eq!(frame.command, 0x31);
    assert_eq!(frame.data, vec![0x01, 0x02, 9, 8, 7]);
}

#[test]
fn test_from_frame_checks_command_then_ack() {
    let wrong_cmd = ResponseFrame::new(true, 0x06, vec![0x12, 0x34]);
    let r = from_frame::<GetDevIDRequest>(wrong_cmd);
    assert!(matches!(r, Err(Error::InvalidCommand(_))));

    let nak = ResponseFrame::new(false, 0x07, vec![0x12, 0x34]);
    let r = from_frame::<GetDevIDRequest>(nak);
    assert!(matches!(r, Err(Error::InvalidResponse(_))));

    let ok = ResponseFrame::new(true, 0x07, vec![0x12, 0x34]);
    let GetDevIDResponse(id) = from_frame::<GetDevIDRequest>(ok).unwrap();
    assert_eq!(id, 0x1234);
}

#[test]
fn test_resend_validates_against_the_original_command() {
    // A resend goes out under its own command byte, but the response echoes
    // the original request's command.
    let echoed = ResponseFrame::new(true, 0x07, vec![0xAB, 0xCD]);
    let r = from_frame::<ResendLastRequest<GetDevIDResponse>>(echoed);
    assert!(matches!(r, Err(Error::InvalidCommand(_))));
}

#[test]
fn test_version_response_parses_two_bytes() {
    let ok = ResponseFrame::new(true, 0x06, vec![4, 1]);
    let v: GetVersionResponse = from_frame::<GetVersionRequest>(ok).unwrap();
    assert_eq!(v, GetVersionResponse { major: 4, minor: 1 });

    let short = ResponseFrame::new(true, 0x06, vec![4]);
    let r = from_frame::<GetVersionRequest>(short);
    assert!(matches!(r, Err(Error::Deserialize)));
}

#[test]
fn test_trailing_bytes_are_tolerated() {
    let long = ResponseFrame::new(true, 0x06, vec![4, 1, 99, 99]);
    let v: GetVersionResponse = from_frame::<GetVersionRequest>(long).unwrap();
    assert_eq!(v, GetVersionResponse { major: 4, minor: 1 });
}

#[test]
fn test_serial_number_takes_eight_bytes() {
    let ok = ResponseFrame::new(true, 0x0A, vec![1, 2, 3, 4, 5, 6, 7, 8, 9]);
    let s: GetSerialNumberResponse = from_frame::<GetSerialNumberRequest>(ok).unwrap();
    assert_eq!(s.serial, vec![1, 2, 3, 4, 5, 6, 7, 8]);

    let short = ResponseFrame::new(true, 0x0A, vec![1, 2, 3]);
    assert!(matches!(
        from_frame::<GetSerialNumberRequest>(short),
        Err(Error::Deserialize)
    ));
}

#[test]
fn test_device_name_takes_thirty_two_bytes() {
    let payload: Vec<u8> = (0..33u8).map(|i| 0x41 + i).collect();
    let ok = ResponseFrame::new(true, 0x0B, payload.clone());
    let name: GetDeviceNameResponse = from_frame::<GetDeviceNameRequest>(ok).unwrap();
    assert_eq!(name.name.len(), 32);
    assert_eq!(name.name[0], b'A');
    assert_eq!(name.name[25], b'Z');
    assert_eq!(name.name, payload[..32].to_vec());

    let short = ResponseFrame::new(true, 0x0B, payload[..20].to_vec());
    let r = from_frame::<GetDeviceNameRequest>(short);
    assert!(matches!(r, Err(Error::Deserialize)));
}

#[test]
fn test_hw_rev_and_fw_status_parse() {
    assert_eq!(GetHWRevRequest.frame().command, 0x08);
    assert_eq!(GetFWStatusRequest.frame().command, 0x0F);

    let hw: GetHWRevResponse =
        from_frame::<GetHWRevRequest>(ResponseFrame::new(true, 0x08, vec![2, 3])).unwrap();
    assert_eq!(hw, GetHWRevResponse { major: 2, minor: 3 });

    let GetFWStatusResponse(status) =
        from_frame::<GetFWStatusRequest>(ResponseFrame::new(true, 0x0F, vec![0x5A])).unwrap();
    assert_eq!(status, 0x5A);
    let r = from_frame::<GetFWStatusRequest>(ResponseFrame::new(true, 0x0F, vec![]));
    assert!(matches!(r, Err(Error::Deserialize)));
}

#[test]
fn test_upload_responses_parse_big_endian_words() {
    let StartUploadResponse(max) =
        from_frame::<StartUploadRequest>(ResponseFrame::new(true, 0x30, vec![0x00, 0x20])).unwrap();
    assert_eq!(max, 32);

    let SendChunkResponse(echo) = from_frame::<SendChunkRequest>(ResponseFrame::new(
        true,
        0x31,
        vec![0x00, 0x07],
    ))
    .unwrap();
    assert_eq!(echo, 7);
}
