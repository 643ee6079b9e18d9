//! Buffered framing over a raw byte stream: bytes read from the transport
//! are queued here until a complete frame decodes; partial frames stay
//! resident. Clearing the buffer drops pending bytes, which the updater uses
//! to recover from timeouts.

use vstd::prelude::*;

use crate::codec::{spec_decode, spec_encode_request, RequestFrame, ResponseFrame, SerialCodec,
    SpecDecodeResult};
use crate::error::Error;

verus! {

/// The codec plus its read buffer. The caller owns the transport: it feeds
/// received bytes in with `push_bytes` and writes out what `write_frame`
/// returns.
pub struct FramedIo {
    pub codec: SerialCodec,
    pub buf: Vec<u8>,
}

impl FramedIo {
    /// An empty read buffer around a fresh codec.
    pub fn new() -> (r: FramedIo)
        ensures
            r.buf@ == Seq::<u8>::empty(),
    {
        FramedIo { codec: SerialCodec::new(), buf: Vec::new() }
    }

    /// Queue bytes received from the transport.
    pub fn push_bytes(&mut self, bytes: &Vec<u8>)
        ensures
            final(self).buf@ == old(self).buf@ + bytes@,
    {
        let mut i: usize = 0;
        while i < bytes.len()
            invariant
                i <= bytes@.len(),
                self.buf@ == old(self).buf@ + bytes@.take(i as int),
            decreases bytes@.len() - i,
        {
            self.buf.push(bytes[i]);
            proof {
                assert(self.buf@ =~= old(self).buf@ + bytes@.take(i + 1));
            }
            i = i + 1;
        }
        proof {
            assert(self.buf@ =~= old(self).buf@ + bytes@);
        }
    }

    /// One decode attempt on the buffered bytes: a decoded frame consumes
    /// its bytes, `Ok(None)` asks for more input, and an error leaves the
    /// buffer for the caller to inspect or clear.
    pub fn try_next(&mut self) -> (r: Result<Option<ResponseFrame>, Error>)
        ensures
            match r {
                Ok(None) => spec_decode(old(self).buf@) is NeedMore && final(self).buf@ == old(
                    self,
                ).buf@,
                Ok(Some(f)) => spec_decode(old(self).buf@) matches SpecDecodeResult::Frame {
                    frame,
                    used,
                } && f@ == frame && final(self).buf@ == old(self).buf@.skip(used),
                Err(e) => final(self).buf@ == old(self).buf@ && (e is BadFraming && spec_decode(
                    old(self).buf@,
                ) is BadFraming || e is BadCrc && spec_decode(old(self).buf@) is BadCrc),
            },
    {
        let codec = &self.codec;
        codec.decode(&mut self.buf)
    }

    /// Drop every pending unconsumed byte.
    pub fn clear(&mut self)
        ensures
            final(self).buf@ == Seq::<u8>::empty(),
    {
        self.buf = Vec::new();
    }

    /// Encode a request for the transport; the caller writes the returned
    /// bytes out. Fails exactly where the encoder does.
    pub fn write_frame(&self, item: &RequestFrame) -> (r: Result<Vec<u8>, Error>)
        ensures
            match r {
                Ok(v) => item.data@.len() <= 255 && v@ == spec_encode_request(item@),
                Err(e) => item.data@.len() > 255 && e is BadFraming,
            },
    {
        self.codec.encode(item)
    }
}

} // verus!
