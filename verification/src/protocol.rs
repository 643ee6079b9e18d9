//! The request/response protocol: each request type carries a fixed command
//! byte and a fixed-width big-endian payload; each response type parses its
//! payload back from a received frame. Validation on receipt checks the
//! echoed command, then the acknowledgement bit, then the payload shape.

use vstd::prelude::*;

use std::marker::PhantomData;

use crate::codec::{RequestFrame, ResponseFrame};
use crate::error::Error;

verus! {

/// A big-endian two-byte rendering of `x`.
pub open spec fn u16_be(x: u16) -> Seq<u8> {
    seq![(x / 256) as u8, (x % 256) as u8]
}

/// The big-endian rendering of the low three bytes of `x`.
pub open spec fn u24_be(x: u32) -> Seq<u8> {
    seq![((x / 0x10000) % 256) as u8, ((x / 0x100) % 256) as u8, (x % 256) as u8]
}

/// The value of two big-endian bytes.
pub open spec fn spec_u16_from_be(b0: u8, b1: u8) -> u16 {
    ((b0 as int) * 256 + (b1 as int)) as u16
}

/// The value of four big-endian bytes.
pub open spec fn spec_u32_from_be(b0: u8, b1: u8, b2: u8, b3: u8) -> u32 {
    ((b0 as int) * 0x1000000 + (b1 as int) * 0x10000 + (b2 as int) * 0x100 + (b3 as int)) as u32
}

/// A value with a fixed rendering as payload bytes.
pub trait IntoBytes {
    /// The payload this value serializes to.
    spec fn spec_bytes(&self) -> Seq<u8>;

    /// Serialize the payload.
    fn into_bytes(&self) -> (r: Vec<u8>)
        ensures
            r@ == self.spec_bytes(),
    ;
}

/// A value parsed from payload bytes. Parsing tolerates trailing bytes; a
/// payload too short for the declared shape is a `Deserialize` error.
pub trait FromBytes: View + Sized {
    /// The value (as its mathematical view) that `data` parses to, if any.
    spec fn spec_from_bytes(data: Seq<u8>) -> Option<Self::V>;

    /// Parse a payload.
    fn from_bytes(data: &Vec<u8>) -> (r: Result<Self, Error>)
        ensures
            match Self::spec_from_bytes(data@) {
                Some(v) => r matches Ok(x) && x@ == v,
                None => r matches Err(e) && e is Deserialize,
            },
    ;
}

/// A response that some request declares; parsed from a received frame.
pub trait Response: FromBytes {

}

/// A request: a command byte plus a serialized payload, paired with the
/// response type its acknowledgement carries.
pub trait Request: IntoBytes {
    type Response: Response;

    /// The command byte this request is tagged with.
    spec fn spec_command() -> u8;

    /// The command byte, as a value.
    fn command() -> (r: u8)
        ensures
            r == Self::spec_command(),
    ;

    /// The full frame for this request.
    fn frame(&self) -> (r: RequestFrame)
        ensures
            r.command == Self::spec_command(),
            r.data@ == self.spec_bytes(),
    {
        RequestFrame::new(Self::command(), self.into_bytes())
    }
}

/// Validate a received frame against the request type `R` and parse its
/// payload: a wrong echoed command is `InvalidCommand`, a clear
/// acknowledgement bit is `InvalidResponse`, and a payload of the wrong
/// shape is `Deserialize`.
pub fn from_frame<R: Request>(frame: ResponseFrame) -> (r: Result<R::Response, Error>)
    ensures
        frame.command != R::spec_command() ==> r == Err::<R::Response, Error>(
            Error::InvalidCommand(frame),
        ),
        frame.command == R::spec_command() && !frame.ack ==> r == Err::<R::Response, Error>(
            Error::InvalidResponse(frame),
        ),
        frame.command == R::spec_command() && frame.ack ==> match <R::Response as FromBytes>::spec_from_bytes(
            frame.data@,
        ) {
            Some(v) => r matches Ok(x) && x@ == v,
            None => r matches Err(e) && e is Deserialize,
        },
{
    if frame.command != R::command() {
        Err(Error::InvalidCommand(frame))
    } else if !frame.ack {
        Err(Error::InvalidResponse(frame))
    } else {
        <R::Response as FromBytes>::from_bytes(&frame.data)
    }
}

/// Enter the bootloader session.
pub struct ConnectRequest;

/// Empty acknowledgement of `ConnectRequest`.
#[derive(Debug, PartialEq, Eq, Structural)]
pub struct ConnectResponse;

impl View for ConnectResponse {
    type V = ConnectResponse;

    open spec fn view(&self) -> ConnectResponse {
        *self
    }
}

impl IntoBytes for ConnectRequest {
    open spec fn spec_bytes(&self) -> Seq<u8> {
        Seq::empty()
    }

    fn into_bytes(&self) -> (r: Vec<u8>) {
        let r: Vec<u8> = Vec::new();
        proof {
            assert(r@ =~= self.spec_bytes());
        }
        r
    }
}

impl FromBytes for ConnectResponse {
    open spec fn spec_from_bytes(data: Seq<u8>) -> Option<ConnectResponse> {
        Some(ConnectResponse)
    }

    fn from_bytes(data: &Vec<u8>) -> (r: Result<Self, Error>) {
        Ok(ConnectResponse)
    }
}

impl Response for ConnectResponse {

}

impl Request for ConnectRequest {
    type Response = ConnectResponse;

    open spec fn spec_command() -> u8 {
        0x03
    }

    fn command() -> u8 {
        0x03
    }
}

/// Restart the device, leaving the bootloader.
pub struct ResetRequest;

/// Empty acknowledgement of `ResetRequest`.
#[derive(Debug, PartialEq, Eq, Structural)]
pub struct ResetResponse;

impl View for ResetResponse {
    type V = ResetResponse;

    open spec fn view(&self) -> ResetResponse {
        *self
    }
}

impl IntoBytes for ResetRequest {
    open spec fn spec_bytes(&self) -> Seq<u8> {
        Seq::empty()
    }

    fn into_bytes(&self) -> (r: Vec<u8>) {
        let r: Vec<u8> = Vec::new();
        proof {
            assert(r@ =~= self.spec_bytes());
        }
        r
    }
}

impl FromBytes for ResetResponse {
    open spec fn spec_from_bytes(data: Seq<u8>) -> Option<ResetResponse> {
        Some(ResetResponse)
    }

    fn from_bytes(data: &Vec<u8>) -> (r: Result<Self, Error>) {
        Ok(ResetResponse)
    }
}

impl Response for ResetResponse {

}

impl Request for ResetRequest {
    type Response = ResetResponse;

    open spec fn spec_command() -> u8 {
        0x02
    }

    fn command() -> u8 {
        0x02
    }
}

/// Ask the device to send its previous response again. It goes on the wire
/// under its own command byte, but the response it provokes echoes the
/// original request's command, so validation is parameterised by the
/// response type `T`.
pub struct ResendLastRequest<T> {
    _phantom: PhantomData<T>,
}

impl<T> ResendLastRequest<T> {
    pub fn new() -> (r: ResendLastRequest<T>) {
        ResendLastRequest { _phantom: PhantomData }
    }
}

impl<T> IntoBytes for ResendLastRequest<T> {
    open spec fn spec_bytes(&self) -> Seq<u8> {
        Seq::empty()
    }

    fn into_bytes(&self) -> (r: Vec<u8>) {
        let r: Vec<u8> = Vec::new();
        proof {
            assert(r@ =~= self.spec_bytes());
        }
        r
    }
}

impl<T: Response> Request for ResendLastRequest<T> {
    type Response = T;

    open spec fn spec_command() -> u8 {
        0x01
    }

    fn command() -> u8 {
        0x01
    }
}

/// Ask for the bootloader version.
pub struct GetVersionRequest;

/// Bootloader version: major and minor.
#[derive(Debug, PartialEq, Eq, Structural)]
pub struct GetVersionResponse {
    pub major: u8,
    pub minor: u8,
}

impl View for GetVersionResponse {
    type V = GetVersionResponse;

    open spec fn view(&self) -> GetVersionResponse {
        *self
    }
}

impl IntoBytes for GetVersionRequest {
    open spec fn spec_bytes(&self) -> Seq<u8> {
        Seq::empty()
    }

    fn into_bytes(&self) -> (r: Vec<u8>) {
        let r: Vec<u8> = Vec::new();
        proof {
            assert(r@ =~= self.spec_bytes());
        }
        r
    }
}

impl FromBytes for GetVersionResponse {
    open spec fn spec_from_bytes(data: Seq<u8>) -> Option<GetVersionResponse> {
        if data.len() >= 2 {
            Some(GetVersionResponse { major: data[0], minor: data[1] })
        } else {
            None
        }
    }

    fn from_bytes(data: &Vec<u8>) -> (r: Result<Self, Error>) {
        if data.len() < 2 {
            return Err(Error::Deserialize);
        }
        Ok(GetVersionResponse { major: data[0], minor: data[1] })
    }
}

impl Response for GetVersionResponse {

}

impl Request for GetVersionRequest {
    type Response = GetVersionResponse;

    open spec fn spec_command() -> u8 {
        0x06
    }

    fn command() -> u8 {
        0x06
    }
}

/// Ask for the device identifier.
pub struct GetDevIDRequest;

/// The device identifier.
#[derive(Debug, PartialEq, Eq, Structural)]
pub struct GetDevIDResponse(pub u16);

impl View for GetDevIDResponse {
    type V = GetDevIDResponse;

    open spec fn view(&self) -> GetDevIDResponse {
        *self
    }
}

impl IntoBytes for GetDevIDRequest {
    open spec fn spec_bytes(&self) -> Seq<u8> {
        Seq::empty()
    }

    fn into_bytes(&self) -> (r: Vec<u8>) {
        let r: Vec<u8> = Vec::new();
        proof {
            assert(r@ =~= self.spec_bytes());
        }
        r
    }
}

impl FromBytes for GetDevIDResponse {
    open spec fn spec_from_bytes(data: Seq<u8>) -> Option<GetDevIDResponse> {
        if data.len() >= 2 {
            Some(GetDevIDResponse(spec_u16_from_be(data[0], data[1])))
        } else {
            None
        }
    }

    fn from_bytes(data: &Vec<u8>) -> (r: Result<Self, Error>) {
        if data.len() < 2 {
            return Err(Error::Deserialize);
        }
        Ok(GetDevIDResponse(u16_from_be(data[0], data[1])))
    }
}

impl Response for GetDevIDResponse {

}

impl Request for GetDevIDRequest {
    type Response = GetDevIDResponse;

    open spec fn spec_command() -> u8 {
        0x07
    }

    fn command() -> u8 {
        0x07
    }
}

/// Ask for the hardware revision.
pub struct GetHWRevRequest;

/// Hardware revision: major and minor.
#[derive(Debug, PartialEq, Eq, Structural)]
pub struct GetHWRevResponse {
    pub major: u8,
    pub minor: u8,
}

impl View for GetHWRevResponse {
    type V = GetHWRevResponse;

    open spec fn view(&self) -> GetHWRevResponse {
        *self
    }
}

impl IntoBytes for GetHWRevRequest {
    open spec fn spec_bytes(&self) -> Seq<u8> {
        Seq::empty()
    }

    fn into_bytes(&self) -> (r: Vec<u8>) {
        let r: Vec<u8> = Vec::new();
        proof {
            assert(r@ =~= self.spec_bytes());
        }
        r
    }
}

impl FromBytes for GetHWRevResponse {
    open spec fn spec_from_bytes(data: Seq<u8>) -> Option<GetHWRevResponse> {
        if data.len() >= 2 {
            Some(GetHWRevResponse { major: data[0], minor: data[1] })
        } else {
            None
        }
    }

    fn from_bytes(data: &Vec<u8>) -> (r: Result<Self, Error>) {
        if data.len() < 2 {
            return Err(Error::Deserialize);
        }
        Ok(GetHWRevResponse { major: data[0], minor: data[1] })
    }
}

impl Response for GetHWRevResponse {

}

impl Request for GetHWRevRequest {
    type Response = GetHWRevResponse;

    open spec fn spec_command() -> u8 {
        0x08
    }

    fn command() -> u8 {
        0x08
    }
}

/// Ask for the serial number.
pub struct GetSerialNumberRequest;

/// The serial number: eight raw bytes.
#[derive(Debug)]
pub struct GetSerialNumberResponse {
    pub serial: Vec<u8>,
}

/// The mathematical value of a `GetSerialNumberResponse`.
pub struct GetSerialNumberResponseView {
    pub serial: Seq<u8>,
}

impl View for GetSerialNumberResponse {
    type V = GetSerialNumberResponseView;

    open spec fn view(&self) -> GetSerialNumberResponseView {
        GetSerialNumberResponseView { serial: self.serial@ }
    }
}

impl IntoBytes for GetSerialNumberRequest {
    open spec fn spec_bytes(&self) -> Seq<u8> {
        Seq::empty()
    }

    fn into_bytes(&self) -> (r: Vec<u8>) {
        let r: Vec<u8> = Vec::new();
        proof {
            assert(r@ =~= self.spec_bytes());
        }
        r
    }
}

impl FromBytes for GetSerialNumberResponse {
    open spec fn spec_from_bytes(data: Seq<u8>) -> Option<GetSerialNumberResponseView> {
        if data.len() >= 8 {
            Some(GetSerialNumberResponseView { serial: data.take(8) })
        } else {
            None
        }
    }

    fn from_bytes(data: &Vec<u8>) -> (r: Result<Self, Error>) {
        if data.len() < 8 {
            return Err(Error::Deserialize);
        }
        let mut serial: Vec<u8> = Vec::new();
        let mut i: usize = 0;
        while i < 8
            invariant
                i <= 8,
                data@.len() >= 8,
                serial@ == data@.take(i as int),
            decreases 8 - i,
        {
            serial.push(data[i]);
            proof {
                assert(serial@ =~= data@.take(i + 1));
            }
            i = i + 1;
        }
        Ok(GetSerialNumberResponse { serial })
    }
}

impl Response for GetSerialNumberResponse {

}

impl Request for GetSerialNumberRequest {
    type Response = GetSerialNumberResponse;

    open spec fn spec_command() -> u8 {
        0x0A
    }

    fn command() -> u8 {
        0x0A
    }
}

/// Ask for the device name.
pub struct GetDeviceNameRequest;

/// The device name: thirty-two raw bytes.
#[derive(Debug)]
pub struct GetDeviceNameResponse {
    pub name: Vec<u8>,
}

/// The mathematical value of a `GetDeviceNameResponse`.
pub struct GetDeviceNameResponseView {
    pub name: Seq<u8>,
}

impl View for GetDeviceNameResponse {
    type V = GetDeviceNameResponseView;

    open spec fn view(&self) -> GetDeviceNameResponseView {
        GetDeviceNameResponseView { name: self.name@ }
    }
}

impl IntoBytes for GetDeviceNameRequest {
    open spec fn spec_bytes(&self) -> Seq<u8> {
        Seq::empty()
    }

    fn into_bytes(&self) -> (r: Vec<u8>) {
        let r: Vec<u8> = Vec::new();
        proof {
            assert(r@ =~= self.spec_bytes());
        }
        r
    }
}

impl FromBytes for GetDeviceNameResponse {
    open spec fn spec_from_bytes(data: Seq<u8>) -> Option<GetDeviceNameResponseView> {
        if data.len() >= 32 {
            Some(GetDeviceNameResponseView { name: data.take(32) })
        } else {
            None
        }
    }

    fn from_bytes(data: &Vec<u8>) -> (r: Result<Self, Error>) {
        if data.len() < 32 {
            return Err(Error::Deserialize);
        }
        let mut name: Vec<u8> = Vec::new();
        let mut k: usize = 0;
        while k < 32
            invariant
                k <= 32,
                data@.len() >= 32,
                name@ == data@.take(k as int),
            decreases 32 - k,
        {
            name.push(data[k]);
            proof {
                assert(name@ =~= data@.take(k + 1));
            }
            k = k + 1;
        }
        Ok(GetDeviceNameResponse { name })
    }
}

impl Response for GetDeviceNameResponse {

}

impl Request for GetDeviceNameRequest {
    type Response = GetDeviceNameResponse;

    open spec fn spec_command() -> u8 {
        0x0B
    }

    fn command() -> u8 {
        0x0B
    }
}

/// Ask for the firmware status byte.
pub struct GetFWStatusRequest;

/// The firmware status byte.
#[derive(Debug, PartialEq, Eq, Structural)]
pub struct GetFWStatusResponse(pub u8);

impl View for GetFWStatusResponse {
    type V = GetFWStatusResponse;

    open spec fn view(&self) -> GetFWStatusResponse {
        *self
    }
}

impl IntoBytes for GetFWStatusRequest {
    open spec fn spec_bytes(&self) -> Seq<u8> {
        Seq::empty()
    }

    fn into_bytes(&self) -> (r: Vec<u8>) {
        let r: Vec<u8> = Vec::new();
        proof {
            assert(r@ =~= self.spec_bytes());
        }
        r
    }
}

impl FromBytes for GetFWStatusResponse {
    open spec fn spec_from_bytes(data: Seq<u8>) -> Option<GetFWStatusResponse> {
        if data.len() >= 1 {
            Some(GetFWStatusResponse(data[0]))
        } else {
            None
        }
    }

    fn from_bytes(data: &Vec<u8>) -> (r: Result<Self, Error>) {
        if data.len() < 1 {
            return Err(Error::Deserialize);
        }
        Ok(GetFWStatusResponse(data[0]))
    }
}

impl Response for GetFWStatusResponse {

}

impl Request for GetFWStatusRequest {
    type Response = GetFWStatusResponse;

    open spec fn spec_command() -> u8 {
        0x0F
    }

    fn command() -> u8 {
        0x0F
    }
}

/// Open an upload of one image slice: its size as a three-byte big-endian
/// integer, then the transfer mode.
pub struct StartUploadRequest {
    pub image_size: u32,
    pub mode: u8,
}

/// The device's chunk-size ceiling for the opened upload.
#[derive(Debug, PartialEq, Eq, Structural)]
pub struct StartUploadResponse(pub u16);

impl View for StartUploadResponse {
    type V = StartUploadResponse;

    open spec fn view(&self) -> StartUploadResponse {
        *self
    }
}

impl IntoBytes for StartUploadRequest {
    open spec fn spec_bytes(&self) -> Seq<u8> {
        u24_be(self.image_size) + seq![self.mode]
    }

    fn into_bytes(&self) -> (r: Vec<u8>) {
        let mut r: Vec<u8> = Vec::new();
        let x = self.image_size;
        r.push(((x / 0x10000) % 256) as u8);
        r.push(((x / 0x100) % 256) as u8);
        r.push((x % 256) as u8);
        r.push(self.mode);
        proof {
            assert(r@ =~= self.spec_bytes());
        }
        r
    }
}

impl FromBytes for StartUploadResponse {
    open spec fn spec_from_bytes(data: Seq<u8>) -> Option<StartUploadResponse> {
        if data.len() >= 2 {
            Some(StartUploadResponse(spec_u16_from_be(data[0], data[1])))
        } else {
            None
        }
    }

    fn from_bytes(data: &Vec<u8>) -> (r: Result<Self, Error>) {
        if data.len() < 2 {
            return Err(Error::Deserialize);
        }
        Ok(StartUploadResponse(u16_from_be(data[0], data[1])))
    }
}

impl Response for StartUploadResponse {

}

impl Request for StartUploadRequest {
    type Response = StartUploadResponse;

    open spec fn spec_command() -> u8 {
        0x30
    }

    fn command() -> u8 {
        0x30
    }
}

/// Transfer one chunk: its zero-based index as two big-endian bytes, then
/// the chunk's bytes.
pub struct SendChunkRequest {
    pub chunk_num: u16,
    pub data: Vec<u8>,
}

/// The device's echo of the transferred chunk's index.
#[derive(Debug, PartialEq, Eq, Structural)]
pub struct SendChunkResponse(pub u16);

impl View for SendChunkResponse {
    type V = SendChunkResponse;

    open spec fn view(&self) -> SendChunkResponse {
        *self
    }
}

impl IntoBytes for SendChunkRequest {
    open spec fn spec_bytes(&self) -> Seq<u8> {
        u16_be(self.chunk_num) + self.data@
    }

    fn into_bytes(&self) -> (r: Vec<u8>) {
        let mut r: Vec<u8> = Vec::new();
        r.push((self.chunk_num / 256) as u8);
        r.push((self.chunk_num % 256) as u8);
        let mut i: usize = 0;
        while i < self.data.len()
            invariant
                i <= self.data.len(),
                r@ == u16_be(self.chunk_num) + self.data@.take(i as int),
            decreases self.data.len() - i,
        {
            r.push(self.data[i]);
            proof {
                assert(r@ =~= u16_be(self.chunk_num) + self.data@.take(i + 1));
            }
            i = i + 1;
        }
        proof {
            assert(self.data@.take(self.data@.len() as int) =~= self.data@);
        }
        r
    }
}

impl FromBytes for SendChunkResponse {
    open spec fn spec_from_bytes(data: Seq<u8>) -> Option<SendChunkResponse> {
        if data.len() >= 2 {
            Some(SendChunkResponse(spec_u16_from_be(data[0], data[1])))
        } else {
            None
        }
    }

    fn from_bytes(data: &Vec<u8>) -> (r: Result<Self, Error>) {
        if data.len() < 2 {
            return Err(Error::Deserialize);
        }
        Ok(SendChunkResponse(u16_from_be(data[0], data[1])))
    }
}

impl Response for SendChunkResponse {

}

impl Request for SendChunkRequest {
    type Response = SendChunkResponse;

    open spec fn spec_command() -> u8 {
        0x31
    }

    fn command() -> u8 {
        0x31
    }
}

/// Assemble a two-byte big-endian value.
pub fn u16_from_be(b0: u8, b1: u8) -> (r: u16)
    ensures
        r == spec_u16_from_be(b0, b1),
{
    (b0 as u16) * 256 + (b1 as u16)
}

/// Assemble a four-byte big-endian value.
pub fn u32_from_be(b0: u8, b1: u8, b2: u8, b3: u8) -> (r: u32)
    ensures
        r == spec_u32_from_be(b0, b1, b2, b3),
{
    (b0 as u32) * 0x1000000 + (b1 as u32) * 0x10000 + (b2 as u32) * 0x100 + (b3 as u32)
}

} // verus!
