//! The frame codec: a byte-stuffed, CRC-protected framing of request and
//! response frames over a raw byte stream.
//!
//! Wire shape of a request: `STX STX`, then the stuffed logical bytes
//! `CMD LENHI LENLO D0..D(L-1) CRCHI CRCLO`, then `ETX`. A response carries a
//! one-byte length instead: its logical bytes are `CMD LEN D0..D(L-1) CRCHI
//! CRCLO`. Inside the stuffed region every special byte (`STX`, `ETX`, `DLE`)
//! is prefixed by `DLE` on the wire; the `DLE` itself is not part of the
//! logical payload and not covered by the CRC.

use vstd::prelude::*;

use crate::crc::{crc16, crc16_exec, crc_bytes};
use crate::error::Error;

verus! {

/// Start-of-text: doubled as the frame preamble.
pub const STX: u8 = 0x55;

/// End-of-text: terminates a frame when it is not escaped.
pub const ETX: u8 = 0x04;

/// Data-link-escape: prefixes any special byte inside the stuffed region.
pub const DLE: u8 = 0x05;

/// A command sent to the device. `command` uses only the low six bits;
/// `data` is the command's payload, at most 255 bytes once encoded.
#[derive(Debug, Eq)]
pub struct RequestFrame {
    pub command: u8,
    pub data: Vec<u8>,
}

/// The mathematical value of a `RequestFrame`.
pub struct RequestFrameView {
    pub command: u8,
    pub data: Seq<u8>,
}

impl View for RequestFrame {
    type V = RequestFrameView;

    open spec fn view(&self) -> RequestFrameView {
        RequestFrameView { command: self.command, data: self.data@ }
    }
}

impl RequestFrame {
    pub fn new(command: u8, data: Vec<u8>) -> (r: RequestFrame)
        ensures
            r.command == command,
            r.data == data,
    {
        RequestFrame { command, data }
    }
}

impl PartialEq for RequestFrame {
    fn eq(&self, other: &RequestFrame) -> (r: bool) {
        self.command == other.command && vec_u8_eq(&self.data, &other.data)
    }
}

impl vstd::std_specs::cmp::PartialEqSpecImpl for RequestFrame {
    open spec fn obeys_eq_spec() -> bool {
        true
    }

    open spec fn eq_spec(&self, other: &RequestFrame) -> bool {
        self.command == other.command && self.data@ == other.data@
    }
}

/// A frame received from the device: the acknowledgement bit, the echoed
/// command, and the payload.
#[derive(Debug, Eq)]
pub struct ResponseFrame {
    pub ack: bool,
    pub command: u8,
    pub data: Vec<u8>,
}

/// The mathematical value of a `ResponseFrame`.
pub struct ResponseFrameView {
    pub ack: bool,
    pub command: u8,
    pub data: Seq<u8>,
}

impl View for ResponseFrame {
    type V = ResponseFrameView;

    open spec fn view(&self) -> ResponseFrameView {
        ResponseFrameView { ack: self.ack, command: self.command, data: self.data@ }
    }
}

impl ResponseFrame {
    pub fn new(ack: bool, command: u8, data: Vec<u8>) -> (r: ResponseFrame)
        ensures
            r.ack == ack,
            r.command == command,
            r.data == data,
    {
        ResponseFrame { ack, command, data }
    }
}

impl PartialEq for ResponseFrame {
    fn eq(&self, other: &ResponseFrame) -> (r: bool) {
        self.ack == other.ack && self.command == other.command && vec_u8_eq(
            &self.data,
            &other.data,
        )
    }
}

impl vstd::std_specs::cmp::PartialEqSpecImpl for ResponseFrame {
    open spec fn obeys_eq_spec() -> bool {
        true
    }

    open spec fn eq_spec(&self, other: &ResponseFrame) -> bool {
        self.ack == other.ack && self.command == other.command && self.data@ == other.data@
    }
}

/// Byte-for-byte equality of two vectors.
pub fn vec_u8_eq(a: &Vec<u8>, b: &Vec<u8>) -> (r: bool)
    ensures
        r == (a@ == b@),
{
    if a.len() != b.len() {
        proof {
            assert(a@ != b@);
        }
        return false;
    }
    let mut i: usize = 0;
    while i < a.len()
        invariant
            i <= a.len(),
            a@.len() == b@.len(),
            forall|j: int| 0 <= j < i ==> a@[j] == b@[j],
        decreases a.len() - i,
    {
        if a[i] != b[i] {
            proof {
                assert(a@ != b@);
            }
            return false;
        }
        i = i + 1;
    }
    proof {
        assert(a@ =~= b@);
    }
    true
}

/// True of the three bytes that must be escaped inside a frame.
pub open spec fn is_special(b: u8) -> bool {
    b == STX || b == ETX || b == DLE
}

/// The wire form of one logical byte: special bytes gain a `DLE` prefix.
pub open spec fn stuff_byte(b: u8) -> Seq<u8> {
    if is_special(b) {
        seq![DLE, b]
    } else {
        seq![b]
    }
}

/// The wire form of a logical byte sequence.
pub open spec fn stuff(s: Seq<u8>) -> Seq<u8>
    decreases s.len(),
{
    if s.len() == 0 {
        Seq::empty()
    } else {
        stuff_byte(s[0]) + stuff(s.drop_first())
    }
}

pub proof fn lemma_stuff_push(s: Seq<u8>, b: u8)
    ensures
        stuff(s.push(b)) == stuff(s) + stuff_byte(b),
    decreases s.len(),
{
    let p = s.push(b);
    if s.len() == 0 {
        assert(p.len() == 1 && p[0] == b);
        assert(p.drop_first() =~= Seq::<u8>::empty());
        assert(stuff(p) == stuff_byte(b) + stuff(Seq::<u8>::empty()));
        assert(stuff(s) + stuff_byte(b) =~= stuff_byte(b) + Seq::<u8>::empty());
    } else {
        assert(p.len() == s.len() + 1 && p[0] == s[0]);
        assert(p.drop_first() =~= s.drop_first().push(b));
        lemma_stuff_push(s.drop_first(), b);
        assert(stuff(p) == stuff_byte(s[0]) + (stuff(s.drop_first()) + stuff_byte(b)));
        assert(stuff(s) == stuff_byte(s[0]) + stuff(s.drop_first()));
        assert(stuff_byte(s[0]) + (stuff(s.drop_first()) + stuff_byte(b)) =~= (stuff_byte(s[0])
            + stuff(s.drop_first())) + stuff_byte(b));
    }
}

/// Stuffing distributes over concatenation.
pub proof fn lemma_stuff_concat(a: Seq<u8>, b: Seq<u8>)
    ensures
        stuff(a + b) == stuff(a) + stuff(b),
    decreases a.len(),
{
    if a.len() == 0 {
        assert(a + b =~= b);
        assert(stuff(a) =~= Seq::<u8>::empty());
        assert(stuff(a) + stuff(b) =~= stuff(b));
    } else {
        assert((a + b).len() == a.len() + b.len());
        assert((a + b)[0] == a[0]);
        assert((a + b).drop_first() =~= a.drop_first() + b);
        lemma_stuff_concat(a.drop_first(), b);
        assert(stuff(a + b) == stuff_byte(a[0]) + (stuff(a.drop_first()) + stuff(b)));
        assert(stuff(a) == stuff_byte(a[0]) + stuff(a.drop_first()));
        assert(stuff_byte(a[0]) + (stuff(a.drop_first()) + stuff(b)) =~= (stuff_byte(a[0])
            + stuff(a.drop_first())) + stuff(b));
    }
}

/// The logical bytes of a request before the checksum: command, two-byte
/// big-endian length, payload.
pub open spec fn request_body(f: RequestFrameView) -> Seq<u8> {
    seq![f.command, (f.data.len() / 256) as u8, (f.data.len() % 256) as u8] + f.data
}

/// The full wire encoding of a request frame.
pub open spec fn spec_encode_request(f: RequestFrameView) -> Seq<u8> {
    seq![STX, STX] + stuff(request_body(f) + crc_bytes(request_body(f))) + seq![ETX]
}

/// The logical bytes of a response before the checksum: command byte with
/// the acknowledgement bit, one-byte length, payload.
pub open spec fn response_body(f: ResponseFrameView) -> Seq<u8> {
    seq![
        if f.ack {
            f.command | 0x40
        } else {
            f.command
        },
        f.data.len() as u8,
    ] + f.data
}

/// The logical bytes of a response as transmitted: body, then checksum.
pub open spec fn response_logical(f: ResponseFrameView) -> Seq<u8> {
    response_body(f) + crc_bytes(response_body(f))
}

/// The full wire encoding of a response frame.
pub open spec fn spec_encode_response(f: ResponseFrameView) -> Seq<u8> {
    seq![STX, STX] + stuff(response_logical(f)) + seq![ETX]
}

/// The offset, within the stuffed region, of the wire byte that carries
/// logical byte `j`: the content byte of its escape pair where one exists,
/// never the escape `DLE` itself.
pub open spec fn content_pos(m: Seq<u8>, j: int) -> int {
    stuff(m.take(j)).len() + (if is_special(m[j]) {
        1int
    } else {
        0int
    })
}

/// The result of walking a raw buffer from the byte after the preamble:
/// either the buffer ends before an unescaped `ETX`, or an unescaped `STX`
/// aborts the frame, or the frame terminates with the accumulated logical
/// bytes and the index of the terminating `ETX`.
pub enum ScanResult {
    NeedMore,
    UnexpectedStx { at: int },
    Terminated { logical: Seq<u8>, end: int },
}

/// Walk `s` from index `i`: an escaped byte (after `DLE`) is taken verbatim;
/// otherwise `STX` aborts, `ETX` terminates, `DLE` escapes the next byte, and
/// any other byte is taken verbatim.
pub open spec fn scan(s: Seq<u8>, i: int, skip: bool, acc: Seq<u8>) -> ScanResult
    decreases s.len() - i,
{
    if i < 0 || i >= s.len() {
        ScanResult::NeedMore
    } else if skip {
        scan(s, i + 1, false, acc.push(s[i]))
    } else if s[i] == STX {
        ScanResult::UnexpectedStx { at: i }
    } else if s[i] == ETX {
        ScanResult::Terminated { logical: acc, end: i }
    } else if s[i] == DLE {
        scan(s, i + 1, true, acc)
    } else {
        scan(s, i + 1, false, acc.push(s[i]))
    }
}

/// What a decode attempt on a raw buffer yields.
pub enum SpecDecodeResult {
    NeedMore,
    BadFraming,
    BadCrc,
    Frame { frame: ResponseFrameView, used: int },
}

/// The meaning of one decode attempt on `s`: require the doubled `STX`
/// preamble, recover the logical bytes up to the first unescaped `ETX`,
/// check the length field against the logical length, check that the
/// checksum over all logical bytes is zero, and split the logical bytes
/// into acknowledgement bit, command and payload. `used` counts the
/// consumed bytes, terminating `ETX` included.
pub open spec fn spec_decode(s: Seq<u8>) -> SpecDecodeResult {
    if s.len() < 2 {
        SpecDecodeResult::NeedMore
    } else if !(s[0] == STX && s[1] == STX) {
        SpecDecodeResult::BadFraming
    } else {
        match scan(s, 2, false, Seq::empty()) {
            ScanResult::NeedMore => SpecDecodeResult::NeedMore,
            ScanResult::UnexpectedStx { .. } => SpecDecodeResult::BadFraming,
            ScanResult::Terminated { logical, end } => {
                if logical.len() < 4 || logical[1] as int != logical.len() - 4 {
                    SpecDecodeResult::BadFraming
                } else if crc16(logical) != 0 {
                    SpecDecodeResult::BadCrc
                } else {
                    SpecDecodeResult::Frame {
                        frame: ResponseFrameView {
                            ack: logical[0] & 0x40 == 0x40,
                            command: logical[0] & 0x3F,
                            data: logical.subrange(2, 2 + logical[1] as int),
                        },
                        used: end + 1,
                    }
                }
            },
        }
    }
}

/// The stateless codec over the raw byte stream.
pub struct SerialCodec {}

impl SerialCodec {
    pub fn new() -> (r: SerialCodec) {
        SerialCodec {  }
    }

    /// Append the wire form of one logical byte.
    fn byte_stuff(data: u8, dst: &mut Vec<u8>)
        ensures
            final(dst)@ == old(dst)@ + stuff_byte(data),
    {
        if data == STX || data == ETX || data == DLE {
            dst.push(DLE);
        }
        dst.push(data);
        proof {
            assert(final(dst)@ =~= old(dst)@ + stuff_byte(data));
        }
    }

    /// Append the wire form of every byte of `logical` to `dst`.
    fn stuff_all(logical: &Vec<u8>, dst: &mut Vec<u8>)
        ensures
            final(dst)@ == old(dst)@ + stuff(logical@),
    {
        let mut j: usize = 0;
        while j < logical.len()
            invariant
                j <= logical.len(),
                dst@ == old(dst)@ + stuff(logical@.take(j as int)),
            decreases logical.len() - j,
        {
            proof {
                assert(logical@.take(j as int).push(logical@[j as int]) =~= logical@.take(
                    j + 1,
                ));
                lemma_stuff_push(logical@.take(j as int), logical@[j as int]);
            }
            Self::byte_stuff(logical[j], dst);
            j = j + 1;
        }
        proof {
            assert(logical@.take(logical@.len() as int) =~= logical@);
        }
    }

    /// Append the big-endian checksum of `logical` to it.
    fn push_crc(logical: &mut Vec<u8>)
        ensures
            final(logical)@ == old(logical)@ + crc_bytes(old(logical)@),
    {
        let c = crc16_exec(logical);
        assert(c / 256 < 256);
        logical.push((c / 256) as u8);
        logical.push((c % 256) as u8);
        proof {
            assert(final(logical)@ =~= old(logical)@ + crc_bytes(old(logical)@));
        }
    }

    /// Frame and stuff a fully assembled logical byte sequence.
    fn frame_logical(logical: Vec<u8>) -> (r: Vec<u8>)
        ensures
            r@ == seq![STX, STX] + stuff(logical@ + crc_bytes(logical@)) + seq![ETX],
    {
        let mut logical = logical;
        Self::push_crc(&mut logical);
        let mut dst: Vec<u8> = Vec::new();
        dst.push(STX);
        dst.push(STX);
        proof {
            assert(dst@ =~= seq![STX, STX]);
        }
        Self::stuff_all(&logical, &mut dst);
        dst.push(ETX);
        proof {
            assert(dst@ =~= seq![STX, STX] + stuff(logical@) + seq![ETX]);
        }
        dst
    }

    /// Encode a request for the wire. Oversize payloads (more than 255
    /// bytes) are rejected with `BadFraming`; the acknowledgement bit is
    /// never set by the encoder.
    pub fn encode(&self, item: &RequestFrame) -> (r: Result<Vec<u8>, Error>)
        ensures
            match r {
                Ok(v) => item.data@.len() <= 255 && v@ == spec_encode_request(item@),
                Err(e) => item.data@.len() > 255 && e is BadFraming,
            },
    {
        if item.data.len() > 255 {
            return Err(Error::BadFraming);
        }
        let mut logical: Vec<u8> = Vec::new();
        logical.push(item.command);
        logical.push(0u8);
        logical.push(item.data.len() as u8);
        let mut i: usize = 0;
        while i < item.data.len()
            invariant
                i <= item.data.len(),
                item.data@.len() <= 255,
                logical@ == seq![
                    item@.command,
                    (item@.data.len() / 256) as u8,
                    (item@.data.len() % 256) as u8,
                ] + item.data@.take(i as int),
            decreases item.data.len() - i,
        {
            logical.push(item.data[i]);
            proof {
                assert(item.data@.take(i as int).push(item.data@[i as int]) =~= item.data@.take(
                    i + 1,
                ));
                assert(logical@ =~= seq![
                    item@.command,
                    (item@.data.len() / 256) as u8,
                    (item@.data.len() % 256) as u8,
                ] + item.data@.take(i + 1));
            }
            i = i + 1;
        }
        proof {
            assert(item.data@.take(item.data@.len() as int) =~= item.data@);
            assert(logical@ =~= request_body(item@));
        }
        Ok(Self::frame_logical(logical))
    }

    /// Encode a response the way the device would put it on the wire: the
    /// acknowledgement bit folded into the command byte and a one-byte
    /// length. Payloads over 255 bytes are rejected with `BadFraming`.
    pub fn encode_response(&self, item: &ResponseFrame) -> (r: Result<Vec<u8>, Error>)
        ensures
            match r {
                Ok(v) => item.data@.len() <= 255 && v@ == spec_encode_response(item@),
                Err(e) => item.data@.len() > 255 && e is BadFraming,
            },
    {
        if item.data.len() > 255 {
            return Err(Error::BadFraming);
        }
        let mut logical: Vec<u8> = Vec::new();
        if item.ack {
            logical.push(item.command | 0x40);
        } else {
            logical.push(item.command);
        }
        logical.push(item.data.len() as u8);
        let mut i: usize = 0;
        while i < item.data.len()
            invariant
                i <= item.data.len(),
                item.data@.len() <= 255,
                logical@ == seq![
                    if item@.ack {
                        item@.command | 0x40
                    } else {
                        item@.command
                    },
                    item@.data.len() as u8,
                ] + item.data@.take(i as int),
            decreases item.data.len() - i,
        {
            logical.push(item.data[i]);
            proof {
                assert(item.data@.take(i as int).push(item.data@[i as int]) =~= item.data@.take(
                    i + 1,
                ));
                assert(logical@ =~= seq![
                    if item@.ack {
                        item@.command | 0x40
                    } else {
                        item@.command
                    },
                    item@.data.len() as u8,
                ] + item.data@.take(i + 1));
            }
            i = i + 1;
        }
        proof {
            assert(item.data@.take(item.data@.len() as int) =~= item.data@);
            assert(logical@ =~= response_body(item@));
        }
        Ok(Self::frame_logical(logical))
    }

    /// One decode attempt on the front of `src`. `Ok(None)` asks for more
    /// bytes and leaves `src` alone; an error leaves `src` alone; a decoded
    /// frame consumes everything through its terminating `ETX`.
    pub fn decode(&self, src: &mut Vec<u8>) -> (r: Result<Option<ResponseFrame>, Error>)
        ensures
            match r {
                Ok(None) => spec_decode(old(src)@) is NeedMore && final(src)@ == old(src)@,
                Ok(Some(f)) => spec_decode(old(src)@) matches SpecDecodeResult::Frame {
                    frame,
                    used,
                } && f@ == frame && final(src)@ == old(src)@.skip(used),
                Err(e) => final(src)@ == old(src)@ && (e is BadFraming && spec_decode(
                    old(src)@,
                ) is BadFraming || e is BadCrc && spec_decode(old(src)@) is BadCrc),
            },
    {
        let ghost s = src@;
        if src.len() < 2 {
            return Ok(None);
        }
        if !(src[0] == STX && src[1] == STX) {
            return Err(Error::BadFraming);
        }
        let mut skip = false;
        let mut data: Vec<u8> = Vec::new();
        let mut idx: usize = 2;
        while idx < src.len()
            invariant
                2 <= idx <= src.len(),
                src@ == s,
                s == old(src)@,
                s.len() >= 2,
                s[0] == STX && s[1] == STX,
                scan(s, 2, false, Seq::empty()) == scan(s, idx as int, skip, data@),
            decreases src.len() - idx,
        {
            let ghost d0 = data@;
            let ghost i0 = idx as int;
            let b = src[idx];
            if skip {
                skip = false;
                data.push(b);
                idx = idx + 1;
                proof {
                    assert(scan(s, i0, true, d0) == scan(s, i0 + 1, false, d0.push(s[i0])));
                }
            } else if b == STX {
                proof {
                    assert(scan(s, i0, false, d0) == (ScanResult::UnexpectedStx { at: i0 }));
                    assert(spec_decode(s) is BadFraming);
                }
                return Err(Error::BadFraming);
            } else if b == ETX {
                proof {
                    assert(scan(s, i0, false, d0) == (ScanResult::Terminated {
                        logical: d0,
                        end: i0,
                    }));
                }
                if data.len() < 4 {
                    proof {
                        assert(spec_decode(s) is BadFraming);
                    }
                    return Err(Error::BadFraming);
                }
                let length = data[1] as usize;
                if length != data.len() - 4 {
                    proof {
                        assert(d0[1] as int != d0.len() - 4);
                        assert(spec_decode(s) is BadFraming);
                    }
                    return Err(Error::BadFraming);
                }
                let c = crc16_exec(&data);
                if c != 0 {
                    proof {
                        assert(crc16(d0) != 0);
                        assert(spec_decode(s) is BadCrc);
                    }
                    return Err(Error::BadCrc);
                }
                proof {
                    assert(spec_decode(s) == SpecDecodeResult::Frame {
                        frame: ResponseFrameView {
                            ack: d0[0] & 0x40 == 0x40,
                            command: d0[0] & 0x3F,
                            data: d0.subrange(2, 2 + d0[1] as int),
                        },
                        used: i0 + 1,
                    });
                }
                let ack = (data[0] & 0x40) == 0x40;
                let command = data[0] & 0x3F;
                let mut payload: Vec<u8> = Vec::new();
                let mut j: usize = 2;
                while j < 2 + length
                    invariant
                        2 <= j <= 2 + length,
                        length <= 255,
                        2 + length <= data@.len(),
                        payload@ == data@.subrange(2, j as int),
                    decreases 2 + length - j,
                {
                    payload.push(data[j]);
                    proof {
                        assert(payload@ =~= data@.subrange(2, j + 1));
                    }
                    j = j + 1;
                }
                let used = idx + 1;
                let mut rest: Vec<u8> = Vec::new();
                let mut k: usize = used;
                while k < src.len()
                    invariant
                        used <= k <= src.len(),
                        src@ == s,
                        used <= s.len(),
                        rest@ == s.subrange(used as int, k as int),
                    decreases src.len() - k,
                {
                    rest.push(src[k]);
                    proof {
                        assert(rest@ =~= s.subrange(used as int, k + 1));
                    }
                    k = k + 1;
                }
                *src = rest;
                proof {
                    assert(src@ =~= s.skip(used as int));
                }
                return Ok(Some(ResponseFrame { ack, command, data: payload }));
            } else if b == DLE {
                skip = true;
                idx = idx + 1;
                proof {
                    assert(scan(s, i0, false, d0) == scan(s, i0 + 1, true, d0));
                }
            } else {
                data.push(b);
                idx = idx + 1;
                proof {
                    assert(scan(s, i0, false, d0) == scan(s, i0 + 1, false, d0.push(s[i0])));
                }
            }
        }
        assert(scan(s, idx as int, skip, data@) is NeedMore);
        Ok(None)
    }
}

/// The walk consumes a stuffed segment in the middle of a buffer without
/// terminating or aborting, appending exactly the segment's logical bytes.
proof fn lemma_scan_stuffed_prefix(t: Seq<u8>, i: int, seg: Seq<u8>, acc: Seq<u8>)
    requires
        0 <= i,
        i + stuff(seg).len() <= t.len(),
        t.subrange(i, i + stuff(seg).len()) == stuff(seg),
    ensures
        scan(t, i, false, acc) == scan(t, i + stuff(seg).len(), false, acc + seg),
    decreases seg.len(),
{
    let region = t.subrange(i, i + stuff(seg).len());
    if seg.len() == 0 {
        assert(stuff(seg) =~= Seq::<u8>::empty());
        assert(acc + seg =~= acc);
    } else {
        let b0 = seg[0];
        let rest = seg.drop_first();
        assert(stuff(seg) == stuff_byte(b0) + stuff(rest));
        if b0 == STX || b0 == ETX || b0 == DLE {
            assert(region.len() == stuff(seg).len());
            assert(region[0] == DLE && region[1] == b0);
            assert(t[i] == region[0] && t[i + 1] == region[1]);
            assert(t.subrange(i + 2, i + 2 + stuff(rest).len()).len() == stuff(rest).len());
            assert forall|k: int| 0 <= k < stuff(rest).len() implies t.subrange(
                i + 2,
                i + 2 + stuff(rest).len(),
            )[k] == stuff(rest)[k] by {
                assert(t.subrange(i + 2, i + 2 + stuff(rest).len())[k] == t[i + 2 + k]);
                assert(t[i + 2 + k] == region[2 + k]);
                assert(region[2 + k] == (stuff_byte(b0) + stuff(rest))[2 + k]);
            }
            assert(t.subrange(i + 2, i + 2 + stuff(rest).len()) =~= stuff(rest));
            lemma_scan_stuffed_prefix(t, i + 2, rest, acc.push(b0));
            assert(scan(t, i, false, acc) == scan(t, i + 1, true, acc));
            assert(scan(t, i + 1, true, acc) == scan(t, i + 2, false, acc.push(b0)));
            assert(acc.push(b0) + rest =~= acc + seg);
        } else {
            assert(region.len() == stuff(seg).len());
            assert(region[0] == b0);
            assert(t[i] == region[0]);
            assert(t.subrange(i + 1, i + 1 + stuff(rest).len()).len() == stuff(rest).len());
            assert forall|k: int| 0 <= k < stuff(rest).len() implies t.subrange(
                i + 1,
                i + 1 + stuff(rest).len(),
            )[k] == stuff(rest)[k] by {
                assert(t.subrange(i + 1, i + 1 + stuff(rest).len())[k] == t[i + 1 + k]);
                assert(t[i + 1 + k] == region[1 + k]);
                assert(region[1 + k] == (stuff_byte(b0) + stuff(rest))[1 + k]);
            }
            assert(t.subrange(i + 1, i + 1 + stuff(rest).len()) =~= stuff(rest));
            lemma_scan_stuffed_prefix(t, i + 1, rest, acc.push(b0));
            assert(scan(t, i, false, acc) == scan(t, i + 1, false, acc.push(b0)));
            assert(acc.push(b0) + rest =~= acc + seg);
        }
    }
}

/// A stuffed region followed by the terminator scans to exactly the logical
/// bytes it was stuffed from.
proof fn lemma_scan_stuffed(t: Seq<u8>, i: int, body: Seq<u8>, acc: Seq<u8>)
    requires
        0 <= i <= t.len(),
        t.subrange(i, t.len() as int) == stuff(body) + seq![ETX],
    ensures
        scan(t, i, false, acc) == (ScanResult::Terminated {
            logical: acc + body,
            end: t.len() - 1,
        }),
    decreases body.len(),
{
    let region = t.subrange(i, t.len() as int);
    if body.len() == 0 {
        assert(stuff(body) =~= Seq::<u8>::empty());
        assert(region =~= seq![ETX]);
        assert(t.len() - i == 1);
        assert(t[i] == region[0]);
        assert(acc + body =~= acc);
    } else {
        let b0 = body[0];
        let rest = body.drop_first();
        assert(stuff(body) == stuff_byte(b0) + stuff(rest));
        if b0 == STX || b0 == ETX || b0 == DLE {
            assert(region.len() == t.len() - i);
            assert(region[0] == DLE && region[1] == b0);
            assert(t[i] == region[0] && t[i + 1] == region[1]);
            assert(t.subrange(i + 2, t.len() as int).len() == stuff(rest).len() + 1);
            assert forall|k: int| 0 <= k < stuff(rest).len() + 1 implies t.subrange(
                i + 2,
                t.len() as int,
            )[k] == (stuff(rest) + seq![ETX])[k] by {
                assert(t.subrange(i + 2, t.len() as int)[k] == t[i + 2 + k]);
                assert(t[i + 2 + k] == region[2 + k]);
                assert(region[2 + k] == (stuff(body) + seq![ETX])[2 + k]);
                assert((stuff(body) + seq![ETX])[2 + k] == (stuff(rest) + seq![ETX])[k]);
            }
            assert(t.subrange(i + 2, t.len() as int) =~= stuff(rest) + seq![ETX]);
            lemma_scan_stuffed(t, i + 2, rest, acc.push(b0));
            assert(scan(t, i, false, acc) == scan(t, i + 1, true, acc));
            assert(scan(t, i + 1, true, acc) == scan(t, i + 2, false, acc.push(b0)));
            assert(acc.push(b0) + rest =~= acc + body);
        } else {
            assert(region.len() == t.len() - i);
            assert(region[0] == b0);
            assert(t[i] == region[0]);
            assert(t.subrange(i + 1, t.len() as int).len() == stuff(rest).len() + 1);
            assert forall|k: int| 0 <= k < stuff(rest).len() + 1 implies t.subrange(
                i + 1,
                t.len() as int,
            )[k] == (stuff(rest) + seq![ETX])[k] by {
                assert(t.subrange(i + 1, t.len() as int)[k] == t[i + 1 + k]);
                assert(t[i + 1 + k] == region[1 + k]);
                assert(region[1 + k] == (stuff(body) + seq![ETX])[1 + k]);
                assert((stuff(body) + seq![ETX])[1 + k] == (stuff(rest) + seq![ETX])[k]);
            }
            assert(t.subrange(i + 1, t.len() as int) =~= stuff(rest) + seq![ETX]);
            lemma_scan_stuffed(t, i + 1, rest, acc.push(b0));
            assert(scan(t, i, false, acc) == scan(t, i + 1, false, acc.push(b0)));
            assert(acc.push(b0) + rest =~= acc + body);
        }
    }
}

/// Round trip: a response put on the wire by `spec_encode_response` decodes
/// back to the same acknowledgement bit, command and data, consuming the
/// whole encoding. Requests are encoded with a two-byte length field while
/// responses carry a one-byte length, so the decoder accepts exactly the
/// response form; a frame travels this loop once the device folds its
/// acknowledgement bit into the first logical byte.
pub proof fn lemma_response_round_trip(f: ResponseFrameView)
    requires
        f.data.len() <= 255,
        f.command <= 0x3F,
    ensures
        spec_decode(spec_encode_response(f)) == (SpecDecodeResult::Frame {
            frame: f,
            used: spec_encode_response(f).len() as int,
        }),
{
    let body = response_body(f);
    let logical = body + crc_bytes(body);
    let enc = spec_encode_response(f);
    assert(enc[0] == STX && enc[1] == STX);
    assert(enc.subrange(2, enc.len() as int) =~= stuff(logical) + seq![ETX]);
    lemma_scan_stuffed(enc, 2, logical, Seq::empty());
    assert(Seq::<u8>::empty() + logical =~= logical);
    let b0 = if f.ack {
        f.command | 0x40
    } else {
        f.command
    };
    assert(logical.len() == f.data.len() + 4);
    assert(logical[0] == b0 && logical[1] == f.data.len() as u8);
    crate::crc::lemma_crc16_with_digest(body);
    let c = f.command;
    assert(c <= 0x3F ==> ((c | 0x40) & 0x40 == 0x40 && (c | 0x40) & 0x3F == c && c & 0x40 == 0
        && c & 0x3F == c)) by (bit_vector);
    assert(logical.subrange(2, 2 + logical[1] as int) =~= f.data);
    let decoded = ResponseFrameView {
        ack: logical[0] & 0x40 == 0x40,
        command: logical[0] & 0x3F,
        data: logical.subrange(2, 2 + logical[1] as int),
    };
    assert(decoded.ack == f.ack && decoded.command == f.command && decoded.data == f.data);
    assert(decoded == f);
}

/// A region with every `DLE <x>` pair replaced by `<x>`, pairing left to
/// right.
pub open spec fn unstuff(s: Seq<u8>) -> Seq<u8>
    decreases s.len(),
{
    if s.len() == 0 {
        Seq::empty()
    } else if s[0] == DLE && s.len() >= 2 {
        seq![s[1]] + unstuff(s.skip(2))
    } else {
        seq![s[0]] + unstuff(s.skip(1))
    }
}

/// Byte-stuffing equivalence: whenever the decoder's walk terminates, the
/// logical sequence it recovered is the scanned region with every `DLE <x>`
/// pair replaced by `<x>`.
pub proof fn lemma_byte_stuffing_equivalence(
    t: Seq<u8>,
    i: int,
    acc: Seq<u8>,
    logical: Seq<u8>,
    end: int,
)
    requires
        0 <= i <= t.len(),
        scan(t, i, false, acc) == (ScanResult::Terminated { logical, end }),
    ensures
        i <= end < t.len(),
        t[end] == ETX,
        logical == acc + unstuff(t.subrange(i, end)),
    decreases t.len() - i,
{
    assert(i < t.len());
    if t[i] == ETX {
        assert(end == i && logical == acc);
        assert(unstuff(t.subrange(i, end)) =~= Seq::<u8>::empty());
        assert(logical =~= acc + unstuff(t.subrange(i, end)));
    } else if t[i] == STX {
        assert(false);
    } else if t[i] == DLE {
        assert(scan(t, i, false, acc) == scan(t, i + 1, true, acc));
        assert(i + 1 < t.len());
        assert(scan(t, i + 1, true, acc) == scan(t, i + 2, false, acc.push(t[i + 1])));
        lemma_byte_stuffing_equivalence(t, i + 2, acc.push(t[i + 1]), logical, end);
        let sub = t.subrange(i, end);
        assert(sub[0] == DLE && sub.len() >= 2);
        assert(sub.skip(2) =~= t.subrange(i + 2, end));
        assert(unstuff(sub) == seq![sub[1]] + unstuff(sub.skip(2)));
        assert(acc + unstuff(sub) =~= acc.push(t[i + 1]) + unstuff(t.subrange(i + 2, end)));
    } else {
        assert(scan(t, i, false, acc) == scan(t, i + 1, false, acc.push(t[i])));
        lemma_byte_stuffing_equivalence(t, i + 1, acc.push(t[i]), logical, end);
        let sub = t.subrange(i, end);
        assert(sub[0] == t[i] && sub[0] != DLE);
        assert(sub.skip(1) =~= t.subrange(i + 1, end));
        assert(unstuff(sub) == seq![sub[0]] + unstuff(sub.skip(1)));
        assert(acc + unstuff(sub) =~= acc.push(t[i]) + unstuff(t.subrange(i + 1, end)));
    }
}

/// CRC detection: take the logical bytes of any frame the decoder would
/// accept (the length field matches and the checksum comes to zero) and
/// corrupt any single byte of them — in particular, flip any single bit.
/// Every wire carrying the corrupted logical bytes is then rejected, as
/// badly framed when the length byte was hit, else as a checksum failure.
/// (A corrupting flip in the raw wire bytes that breaks the stuffing
/// structure itself is rejected by the walk instead: an unescaped `STX` is
/// `BadFraming` by definition, and an escaped terminator leaves the frame
/// incomplete.)
pub proof fn lemma_crc_detects_single_corruption(
    w2: Seq<u8>,
    logical: Seq<u8>,
    i: int,
    b: u8,
    end2: int,
)
    requires
        logical.len() >= 4,
        logical[1] as int == logical.len() - 4,
        crc16(logical) == 0,
        0 <= i < logical.len(),
        b != logical[i],
        w2.len() >= 2,
        w2[0] == STX && w2[1] == STX,
        scan(w2, 2, false, Seq::empty()) == (ScanResult::Terminated {
            logical: logical.update(i, b),
            end: end2,
        }),
    ensures
        spec_decode(w2) is BadFraming || spec_decode(w2) is BadCrc,
{
    let corrupted = logical.update(i, b);
    crate::crc::lemma_crc_detects_corruption(logical, i, b);
    assert(crc16(corrupted) != 0);
    if corrupted[1] as int == corrupted.len() - 4 {
        assert(spec_decode(w2) is BadCrc);
    } else {
        assert(spec_decode(w2) is BadFraming);
    }
}

/// Wire-level CRC detection for a valid encoded response: corrupt the wire
/// byte that carries any one logical byte — the content byte of its escape
/// pair (changed to anything), or a bare byte (changed to any other
/// non-special value), so that the escape structure itself stays in place —
/// and the decoder rejects the result as badly framed or as a checksum
/// failure. The corrupted byte is never a `DLE` escape byte. Corruptions
/// that break the escape structure (a bare byte turned into a special one)
/// are outside this lemma; of those, one into `STX` is rejected by `scan`'s
/// definition.
pub proof fn lemma_wire_corruption_rejected(f: ResponseFrameView, j: int, b: u8)
    requires
        f.data.len() <= 255,
        f.command <= 0x3F,
        0 <= j < response_logical(f).len(),
        b != response_logical(f)[j],
        is_special(response_logical(f)[j]) || !is_special(b),
    ensures
        ({
            let w = spec_encode_response(f);
            let m = response_logical(f);
            let p = 2 + content_pos(m, j);
            &&& 2 <= p < w.len() - 1
            &&& w[p] == m[j]
            &&& (spec_decode(w.update(p, b)) is BadFraming || spec_decode(
                w.update(p, b),
            ) is BadCrc)
        }),
{
    let w = spec_encode_response(f);
    let m = response_logical(f);
    let body = response_body(f);
    let pre = stuff(m.take(j));
    let pl = pre.len() as int;
    let post = stuff(m.skip(j + 1));
    // split the stuffed region around logical byte j
    assert(m =~= m.take(j) + (seq![m[j]] + m.skip(j + 1)));
    lemma_stuff_concat(m.take(j), seq![m[j]] + m.skip(j + 1));
    lemma_stuff_concat(seq![m[j]], m.skip(j + 1));
    assert(seq![m[j]].drop_first() =~= Seq::<u8>::empty());
    assert(stuff(seq![m[j]]) == stuff_byte(m[j]) + stuff(seq![m[j]].drop_first()));
    assert(stuff(Seq::<u8>::empty()) == Seq::<u8>::empty());
    assert(stuff(seq![m[j]]) =~= stuff_byte(m[j]));
    assert(stuff(m) == pre + (stuff_byte(m[j]) + post));
    let p = 2 + content_pos(m, j);
    // the original logical bytes pass the receiver's tests
    assert(m.len() == f.data.len() + 4);
    assert(body.len() == f.data.len() + 2);
    assert(m[1] == body[1] && body[1] == f.data.len() as u8);
    crate::crc::lemma_crc16_with_digest(body);
    assert(crc16(m) == 0);
    let w2 = w.update(p, b);
    assert(w.len() == 2 + stuff(m).len() + 1);
    if is_special(m[j]) {
        assert(stuff_byte(m[j]) =~= seq![DLE, m[j]]);
        assert(p == 2 + pl + 1);
        assert(p < w.len() - 1);
        assert(w[p] == stuff(m)[pl + 1]);
        assert(stuff(m)[pl + 1] == (stuff_byte(m[j]) + post)[1]);
        assert(w[p] == m[j]);
        assert(w2[0] == w[0] && w2[1] == w[1]);
        // the walk consumes the untouched prefix
        assert(w2.subrange(2, 2 + pl).len() == pre.len());
        assert forall|k: int| 0 <= k < pl implies w2.subrange(2, 2 + pl)[k]
            == pre[k] by {
            assert(w2.subrange(2, 2 + pl)[k] == w2[2 + k]);
            assert(w2[2 + k] == w[2 + k]);
            assert(w[2 + k] == stuff(m)[k]);
            assert(stuff(m)[k] == pre[k]);
        }
        assert(w2.subrange(2, 2 + pl) =~= pre);
        lemma_scan_stuffed_prefix(w2, 2, m.take(j), Seq::empty());
        let i1: int = 2 + pl;
        // the escape pair with the corrupted content byte
        assert(w2[i1] == w[i1]);
        assert(w[i1] == stuff(m)[pl]);
        assert(stuff(m)[pl] == (stuff_byte(m[j]) + post)[0]);
        assert(w2[i1] == DLE);
        assert(i1 + 1 < w2.len());
        assert(w2[i1 + 1] == b);
        let acc1 = Seq::<u8>::empty() + m.take(j);
        assert(scan(w2, i1, false, acc1) == scan(w2, i1 + 1, true, acc1));
        assert(scan(w2, i1 + 1, true, acc1) == scan(w2, i1 + 2, false, acc1.push(b)));
        // the untouched suffix and the terminator
        assert(w2.subrange(i1 + 2, w2.len() as int).len() == post.len() + 1);
        assert forall|k: int| 0 <= k < post.len() + 1 implies w2.subrange(
            i1 + 2,
            w2.len() as int,
        )[k] == (post + seq![ETX])[k] by {
            assert(w2.subrange(i1 + 2, w2.len() as int)[k] == w2[i1 + 2 + k]);
            assert(w2[i1 + 2 + k] == w[i1 + 2 + k]);
            if k < post.len() {
                assert(w[i1 + 2 + k] == stuff(m)[pre.len() + 2 + k]);
                assert(stuff(m)[pre.len() + 2 + k] == (stuff_byte(m[j]) + post)[2 + k]);
            } else {
                assert(i1 + 2 + k == w.len() - 1);
                assert(w[w.len() - 1] == ETX);
            }
        }
        assert(w2.subrange(i1 + 2, w2.len() as int) =~= post + seq![ETX]);
        lemma_scan_stuffed(w2, i1 + 2, m.skip(j + 1), acc1.push(b));
        assert(acc1.push(b) + m.skip(j + 1) =~= m.update(j, b));
        assert(scan(w2, 2, false, Seq::empty()) == (ScanResult::Terminated {
            logical: m.update(j, b),
            end: w2.len() - 1,
        }));
        lemma_crc_detects_single_corruption(w2, m, j, b, w2.len() - 1);
    } else {
        assert(!is_special(b));
        assert(stuff_byte(m[j]) =~= seq![m[j]]);
        assert(p == 2 + pl);
        assert(p < w.len() - 1);
        assert(w[p] == stuff(m)[pl]);
        assert(stuff(m)[pl] == (stuff_byte(m[j]) + post)[0]);
        assert(w[p] == m[j]);
        assert(w2[0] == w[0] && w2[1] == w[1]);
        // the corrupted region is the canonical stuffing of the corrupted
        // logical bytes, since the new byte needs no escape either
        let m2 = m.update(j, b);
        assert(m2 =~= m.take(j) + (seq![b] + m.skip(j + 1)));
        lemma_stuff_concat(m.take(j), seq![b] + m.skip(j + 1));
        lemma_stuff_concat(seq![b], m.skip(j + 1));
        assert(seq![b].drop_first() =~= Seq::<u8>::empty());
        assert(stuff(seq![b]) == stuff_byte(b) + stuff(seq![b].drop_first()));
        assert(stuff(seq![b]) =~= stuff_byte(b));
        assert(stuff_byte(b) =~= seq![b]);
        assert(stuff(m2) == pre + (seq![b] + post));
        assert(stuff(m2).len() == stuff(m).len());
        assert(w2.subrange(2, w2.len() as int).len() == stuff(m2).len() + 1);
        assert forall|k: int| 0 <= k < stuff(m2).len() + 1 implies w2.subrange(
            2,
            w2.len() as int,
        )[k] == (stuff(m2) + seq![ETX])[k] by {
            assert(w2.subrange(2, w2.len() as int)[k] == w2[2 + k]);
            if 2 + k == p {
                assert(w2[2 + k] == b);
                assert(stuff(m2)[pl] == (seq![b] + post)[0]);
                assert((stuff(m2) + seq![ETX])[k] == b);
            } else {
                assert(w2[2 + k] == w[2 + k]);
                if k < stuff(m).len() {
                    assert(w[2 + k] == stuff(m)[k]);
                    if k < pl {
                        assert(stuff(m)[k] == pre[k]);
                        assert(stuff(m2)[k] == pre[k]);
                    } else {
                        assert(stuff(m)[k] == (stuff_byte(m[j]) + post)[k - pl]);
                        assert(stuff(m2)[k] == (seq![b] + post)[k - pl]);
                    }
                } else {
                    assert(2 + k == w.len() - 1);
                    assert(w[w.len() - 1] == ETX);
                    assert((stuff(m2) + seq![ETX])[k] == ETX);
                }
            }
        }
        assert(w2.subrange(2, w2.len() as int) =~= stuff(m2) + seq![ETX]);
        lemma_scan_stuffed(w2, 2, m2, Seq::empty());
        assert(Seq::<u8>::empty() + m2 =~= m2);
        assert(scan(w2, 2, false, Seq::empty()) == (ScanResult::Terminated {
            logical: m2,
            end: w2.len() - 1,
        }));
        lemma_crc_detects_single_corruption(w2, m, j, b, w2.len() - 1);
    }
}

/// Wire-level detection where the corruption breaks the frame structure: a
/// bare carrier byte turned into `STX` aborts the walk, and one turned into
/// `ETX` truncates the logical bytes so the length test fails; both are
/// rejected as badly framed. Together with `lemma_wire_corruption_rejected`
/// this covers every corruption of a carrier byte except one into `DLE`,
/// which can swallow the terminator and leave the decoder waiting for more
/// input rather than rejecting.
pub proof fn lemma_wire_structural_corruption_rejected(f: ResponseFrameView, j: int, b: u8)
    requires
        f.data.len() <= 255,
        f.command <= 0x3F,
        0 <= j < response_logical(f).len(),
        !is_special(response_logical(f)[j]),
        b == STX || b == ETX,
    ensures
        spec_decode(
            spec_encode_response(f).update(2 + content_pos(response_logical(f), j), b),
        ) is BadFraming,
{
    let w = spec_encode_response(f);
    let m = response_logical(f);
    let body = response_body(f);
    let pre = stuff(m.take(j));
    let pl = pre.len() as int;
    let post = stuff(m.skip(j + 1));
    // split the stuffed region around logical byte j
    assert(m =~= m.take(j) + (seq![m[j]] + m.skip(j + 1)));
    lemma_stuff_concat(m.take(j), seq![m[j]] + m.skip(j + 1));
    lemma_stuff_concat(seq![m[j]], m.skip(j + 1));
    assert(seq![m[j]].drop_first() =~= Seq::<u8>::empty());
    assert(stuff(seq![m[j]]) == stuff_byte(m[j]) + stuff(seq![m[j]].drop_first()));
    assert(stuff(Seq::<u8>::empty()) == Seq::<u8>::empty());
    assert(stuff(seq![m[j]]) =~= stuff_byte(m[j]));
    assert(stuff_byte(m[j]) =~= seq![m[j]]);
    assert(stuff(m) == pre + (seq![m[j]] + post));
    let p = 2 + content_pos(m, j);
    assert(p == 2 + pl);
    assert(w.len() == 2 + stuff(m).len() + 1);
    assert(p < w.len() - 1);
    let w2 = w.update(p, b);
    assert(w2[0] == w[0] && w2[1] == w[1]);
    assert(w2.len() == w.len());
    // the walk consumes the untouched prefix
    assert(w2.subrange(2, 2 + pl).len() == pre.len());
    assert forall|k: int| 0 <= k < pl implies w2.subrange(2, 2 + pl)[k] == pre[k] by {
        assert(w2.subrange(2, 2 + pl)[k] == w2[2 + k]);
        assert(w2[2 + k] == w[2 + k]);
        assert(w[2 + k] == stuff(m)[k]);
        assert(stuff(m)[k] == pre[k]);
    }
    assert(w2.subrange(2, 2 + pl) =~= pre);
    lemma_scan_stuffed_prefix(w2, 2, m.take(j), Seq::empty());
    let acc1 = Seq::<u8>::empty() + m.take(j);
    assert(w2[p] == b);
    assert(p < w2.len());
    // the original logical bytes: length facts for the truncation case
    assert(m.len() == f.data.len() + 4);
    assert(body.len() == f.data.len() + 2);
    assert(m[1] == body[1] && body[1] == f.data.len() as u8);
    if b == STX {
        assert(scan(w2, p, false, acc1) == (ScanResult::UnexpectedStx { at: p }));
        assert(spec_decode(w2) is BadFraming);
    } else {
        assert(scan(w2, p, false, acc1) == (ScanResult::Terminated { logical: acc1, end: p }));
        assert(acc1 =~= m.take(j));
        let logical2 = m.take(j);
        assert(logical2.len() == j);
        if j < 4 {
            assert(spec_decode(w2) is BadFraming);
        } else {
            assert(logical2[1] == m[1]);
            assert(logical2[1] as int == f.data.len());
            assert(j - 4 < f.data.len());
            assert(logical2[1] as int != logical2.len() - 4);
            assert(spec_decode(w2) is BadFraming);
        }
    }
}

/// The decoder never accepts the request encoding back: a request carries a
/// two-byte length field where a response carries one byte, so feeding an
/// encoded request to the decoder fails the length test and is rejected as
/// badly framed.
pub proof fn lemma_request_encoding_is_not_a_response(f: RequestFrameView)
    requires
        f.data.len() <= 255,
    ensures
        spec_decode(spec_encode_request(f)) is BadFraming,
{
    let body = request_body(f);
    let logical = body + crc_bytes(body);
    let enc = spec_encode_request(f);
    assert(enc[0] == STX && enc[1] == STX);
    assert(enc.subrange(2, enc.len() as int) =~= stuff(logical) + seq![ETX]);
    lemma_scan_stuffed(enc, 2, logical, Seq::empty());
    assert(Seq::<u8>::empty() + logical =~= logical);
    assert(logical.len() == f.data.len() + 5);
    assert(logical[1] == (f.data.len() / 256) as u8);
    assert(logical[1] as int == 0);
    assert(logical[1] as int != logical.len() - 4);
}

} // verus!
