//! Error kinds surfaced by the codec, the protocol layer and the updater.

use vstd::prelude::*;

use crate::codec::ResponseFrame;

verus! {

/// Every failure the core can surface. `Io` stands for a transport failure
/// reported by the caller; `BadFraming` and `BadCrc` are decoder rejections;
/// `InvalidCommand` and `InvalidResponse` carry the offending frame;
/// `Deserialize` is a payload shape mismatch; `Timeout` is a missed deadline;
/// `Unsupported` is an unrecognized firmware descriptor kind; `Other` wraps
/// failures of the reset capability.
#[derive(Debug)]
pub enum Error {
    Io,
    BadFraming,
    BadCrc,
    InvalidCommand(ResponseFrame),
    InvalidResponse(ResponseFrame),
    Deserialize,
    Timeout,
    Unsupported,
    Other,
}

} // verus!
