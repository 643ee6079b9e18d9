//! The updater's driver logic as an event-driven state machine. The machine
//! owns every decision of a session — connect with one reset-assisted retry
//! round, fetch the device identifier, walk the firmware descriptors, chunk
//! each slice, and finish with a reset — while the caller performs the I/O:
//! it writes the frames the machine hands out, arms each read deadline, and
//! reports back decoded frames, decode failures, elapsed deadlines, and the
//! outcome of the reset capability.
//!
//! One request is in flight at a time: a step emits at most one `Send`, and
//! only when the machine moves into a phase that awaits a response.

use vstd::prelude::*;

use crate::codec::{RequestFrame, ResponseFrame};
use crate::error::Error;
use crate::firmware::{active_from, desc_wf, visit_from, FirmwareImage};
use crate::protocol::{
    from_frame, spec_u16_from_be, u16_be, u24_be, ConnectRequest, GetDevIDRequest,
    GetDevIDResponse, Request, ResetRequest, SendChunkRequest, SendChunkResponse,
    StartUploadRequest, StartUploadResponse,
};

verus! {

/// What the caller must do after a step.
#[derive(Debug)]
pub enum Action {
    /// Encode and write this frame, then await a response for `timeout_ms`
    /// milliseconds.
    Send { frame: RequestFrame, timeout_ms: u64 },
    /// Drop any buffered unread bytes.
    ClearReadBuffer,
    /// Run the reset capability, then report `on_reset_result`.
    Reset,
    /// Report upload progress: chunk `chunk` of `total` is done.
    Progress { chunk: u64, total: u64 },
    /// The session succeeded.
    Succeed,
    /// The session failed with this error.
    Fail(Error),
}

/// Where the session stands.
#[derive(Debug, PartialEq, Eq, Structural, Clone, Copy)]
pub enum Phase {
    /// No session yet.
    Idle,
    /// First `Connect` sent; awaiting its response.
    ConnectFirst,
    /// The reset capability is running.
    ResetterRunning,
    /// A post-reset `Connect` sent; awaiting its response.
    ConnectRetry,
    /// `GetDevID` sent; awaiting the identifier.
    FetchDevId,
    /// `StartUpload` sent for the current descriptor; awaiting the grant.
    StartingUpload,
    /// `SendChunk` sent for the current chunk; awaiting its echo.
    SendingChunk,
    /// Final `Reset` sent; awaiting its acknowledgement.
    FinalReset,
    /// The session succeeded.
    Done,
    /// The session failed.
    Failed,
}

/// Ceiling division: how many chunks of size `cs` cover `size` bytes.
pub open spec fn spec_num_chunks(size: int, cs: int) -> int {
    (size + cs - 1) / cs
}

/// The granted chunk size: the smaller of the configured and offered sizes,
/// rounded down to a multiple of sixteen.
pub open spec fn effective_chunk_size(cfg: u16, max: u16) -> u16 {
    let m = if cfg < max {
        cfg
    } else {
        max
    };
    (((m as int) / 16) * 16) as u16
}

/// Rounding down to a multiple of sixteen is the same as masking out the
/// low four bits.
pub proof fn lemma_effective_chunk_size_is_masked(cfg: u16, max: u16)
    ensures
        effective_chunk_size(cfg, max) == (if cfg < max {
            cfg
        } else {
            max
        }) & 0xFFF0,
{
    let m = if cfg < max {
        cfg
    } else {
        max
    };
    assert((((m as int) / 16) * 16) as u16 == m & 0xFFF0) by (bit_vector);
}

/// The bytes of chunk `c` of descriptor `idx`: a window of `cs` bytes into
/// the descriptor's slice, the last window possibly shorter.
pub open spec fn chunk_data(
    fw: crate::firmware::FirmwareImageView,
    idx: int,
    cs: int,
    c: int,
) -> Seq<u8> {
    let off = fw.descriptors[idx].image_offset as int;
    let size = fw.descriptors[idx].image_size as int;
    let lo = c * cs;
    let hi = if (c + 1) * cs <= size {
        (c + 1) * cs
    } else {
        size
    };
    fw.data.subrange(off + lo, off + hi)
}

/// The first `n` chunks of descriptor `idx`, concatenated in order.
pub open spec fn chunks_up_to(
    fw: crate::firmware::FirmwareImageView,
    idx: int,
    cs: int,
    n: int,
) -> Seq<u8>
    decreases n,
{
    if n <= 0 {
        Seq::empty()
    } else {
        chunks_up_to(fw, idx, cs, n - 1) + chunk_data(fw, idx, cs, n - 1)
    }
}

proof fn lemma_chunks_prefix(fw: crate::firmware::FirmwareImageView, idx: int, cs: int, n: int)
    requires
        cs >= 1,
        0 <= idx < fw.descriptors.len(),
        fw.descriptors[idx].image_offset + fw.descriptors[idx].image_size <= fw.data.len(),
        0 <= n <= spec_num_chunks(fw.descriptors[idx].image_size as int, cs),
    ensures
        ({
            let off = fw.descriptors[idx].image_offset as int;
            let size = fw.descriptors[idx].image_size as int;
            chunks_up_to(fw, idx, cs, n) == fw.data.subrange(
                off,
                off + (if n * cs <= size {
                    n * cs
                } else {
                    size
                }),
            )
        }),
    decreases n,
{
    let off = fw.descriptors[idx].image_offset as int;
    let size = fw.descriptors[idx].image_size as int;
    if n == 0 {
        assert(chunks_up_to(fw, idx, cs, 0) =~= fw.data.subrange(off, off));
    } else {
        lemma_chunks_prefix(fw, idx, cs, n - 1);
        lemma_chunk_start(size, cs, n - 1);
        assert((n - 1) * cs < size);
        assert(n * cs == (n - 1) * cs + cs) by (nonlinear_arith);
        let prev_hi = (n - 1) * cs;
        let hi = if n * cs <= size {
            n * cs
        } else {
            size
        };
        assert(chunk_data(fw, idx, cs, n - 1) == fw.data.subrange(off + prev_hi, off + hi));
        assert(fw.data.subrange(off, off + prev_hi) + fw.data.subrange(off + prev_hi, off + hi)
            =~= fw.data.subrange(off, off + hi));
    }
}

/// Upload completeness: the chunk windows of a descriptor, concatenated in
/// order, are exactly its slice of the image data — no byte is skipped and
/// none is sent twice.
pub proof fn lemma_chunks_reassemble_slice(
    fw: crate::firmware::FirmwareImageView,
    idx: int,
    cs: int,
)
    requires
        cs >= 1,
        0 <= idx < fw.descriptors.len(),
        fw.descriptors[idx].image_offset + fw.descriptors[idx].image_size <= fw.data.len(),
    ensures
        ({
            let off = fw.descriptors[idx].image_offset as int;
            let size = fw.descriptors[idx].image_size as int;
            chunks_up_to(fw, idx, cs, spec_num_chunks(size, cs)) == fw.data.subrange(
                off,
                off + size,
            )
        }),
{
    let off = fw.descriptors[idx].image_offset as int;
    let size = fw.descriptors[idx].image_size as int;
    let num = spec_num_chunks(size, cs);
    vstd::arithmetic::div_mod::lemma_fundamental_div_mod(size + cs - 1, cs);
    vstd::arithmetic::div_mod::lemma_mod_bound(size + cs - 1, cs);
    assert(num * cs >= size) by (nonlinear_arith)
        requires
            cs >= 1,
            size + cs - 1 == cs * num + (size + cs - 1) % cs,
            0 <= (size + cs - 1) % cs < cs,
    ;
    assert(num >= 0);
    lemma_chunks_prefix(fw, idx, cs, num);
    if num * cs <= size {
        assert(num * cs == size);
    }
}

/// The chunk index as it goes on the wire, reduced to sixteen bits.
pub open spec fn chunk_wire_num(c: u64) -> u16 {
    (c as int % 0x10000) as u16
}

/// True of a `Send` action.
pub open spec fn is_send(a: Action) -> bool {
    a matches Action::Send { .. }
}

/// No step hands the caller two frames to write.
pub open spec fn at_most_one_send(actions: Seq<Action>) -> bool {
    forall|i: int, j: int|
        0 <= i < j < actions.len() ==> !(is_send(#[trigger] actions[i]) && is_send(
            #[trigger] actions[j],
        ))
}

/// A `Send` of the `Connect` request with the given deadline.
pub open spec fn connect_action(a: Action, t: u64) -> bool {
    a matches Action::Send { frame, timeout_ms } && frame.command == 0x03 && frame.data@
        == Seq::<u8>::empty() && timeout_ms == t
}

/// A `Send` of the `ResendLast` request with the given deadline.
pub open spec fn resend_action(a: Action, t: u64) -> bool {
    a matches Action::Send { frame, timeout_ms } && frame.command == 0x01 && frame.data@
        == Seq::<u8>::empty() && timeout_ms == t
}

/// A `Send` of the `Reset` request with the given deadline.
pub open spec fn reset_request_action(a: Action, t: u64) -> bool {
    a matches Action::Send { frame, timeout_ms } && frame.command == 0x02 && frame.data@
        == Seq::<u8>::empty() && timeout_ms == t
}

/// The step moved the machine into `StartingUpload` for its (new) current
/// descriptor, and `a` sends the matching `StartUpload`.
pub open spec fn starts_descriptor(pre: Updater, post: Updater, a: Action) -> bool {
    post.firmware matches Some(fw) && {
        let d = fw@.descriptors[post.image_idx as int];
        &&& post.phase == Phase::StartingUpload
        &&& post.resend_left == pre.resend_retry
        &&& (a matches Action::Send { frame, timeout_ms } && frame.command == 0x30 && frame.data@
            == u24_be(d.image_size) + seq![1u8] && timeout_ms == pre.request_timeout_ms)
    }
}

/// The step moved the machine into `SendingChunk`, and `a` sends the bytes
/// of its (new) current chunk under that chunk's wire index.
pub open spec fn sends_chunk(pre: Updater, post: Updater, a: Action) -> bool {
    post.firmware matches Some(fw) && {
        &&& post.phase == Phase::SendingChunk
        &&& post.resend_left == pre.resend_retry
        &&& (a matches Action::Send { frame, timeout_ms } && frame.command == 0x31 && frame.data@
            == u16_be(chunk_wire_num(post.chunk_idx)) + chunk_data(
            fw@,
            post.image_idx as int,
            post.chunk_size_eff as int,
            post.chunk_idx as int,
        ) && timeout_ms == pre.chunk_timeout_ms)
    }
}

/// What follows a finished descriptor: a terminal link asks for the final
/// `Reset`, a plain link opens the upload of the next descriptor, and any
/// other descriptor kind fails the session as unsupported. Every branch
/// pins the whole machine state: only the named fields change.
pub open spec fn advances(pre: Updater, post: Updater, a: Action) -> bool {
    pre.firmware matches Some(fw) && {
        let d = fw@.descriptors[pre.image_idx as int];
        if d.next_idx == 0xFF {
            &&& post == (Updater { resend_left: 0, phase: Phase::FinalReset, ..pre })
            &&& reset_request_action(a, pre.request_timeout_ms)
        } else if d.image_type == 0x00 {
            &&& post.image_idx == d.next_idx as int
            &&& post.steps@ == pre.steps@ + 1
            &&& post.firmware == pre.firmware
            &&& post.chunk_size_eff == pre.chunk_size_eff
            &&& post.num_chunks == pre.num_chunks
            &&& post.chunk_idx == pre.chunk_idx
            &&& post.chunk_attempts_left == pre.chunk_attempts_left
            &&& post.connect_attempts_left == pre.connect_attempts_left
            &&& pre.config_unchanged(post)
            &&& starts_descriptor(pre, post, a)
        } else {
            &&& post == (Updater { phase: Phase::Failed, ..pre })
            &&& (a matches Action::Fail(e) && e is Unsupported)
        }
    }
}

/// The updater: configuration knobs, the session state, and the firmware
/// being uploaded. The ghost `steps` counts descriptor advances, tying the
/// current descriptor to the walk `visit_from` that the traversal lemmas
/// speak about.
pub struct Updater {
    pub connect_retry: usize,
    pub resend_retry: usize,
    pub chunk_retry: usize,
    pub connect_timeout_ms: u64,
    pub request_timeout_ms: u64,
    pub chunk_timeout_ms: u64,
    pub chunk_size: u16,
    pub firmware: Option<FirmwareImage>,
    pub image_idx: usize,
    pub chunk_size_eff: u16,
    pub chunk_idx: u64,
    pub num_chunks: u64,
    pub chunk_attempts_left: usize,
    pub resend_left: usize,
    pub connect_attempts_left: usize,
    pub phase: Phase,
    pub steps: Ghost<nat>,
}

impl Updater {
    /// The machine awaits a response frame.
    pub open spec fn awaiting(self) -> bool {
        match self.phase {
            Phase::ConnectFirst | Phase::ConnectRetry | Phase::FetchDevId | Phase::StartingUpload
                | Phase::SendingChunk | Phase::FinalReset => true,
            _ => false,
        }
    }

    /// The read deadline of the phase's exchange.
    pub open spec fn phase_timeout(self) -> u64 {
        match self.phase {
            Phase::ConnectFirst => self.connect_timeout_ms,
            Phase::ConnectRetry => 50,
            Phase::SendingChunk => self.chunk_timeout_ms,
            _ => self.request_timeout_ms,
        }
    }

    /// A session's firmware is present and well-formed, and chunk sending
    /// has at least one attempt to spend.
    pub open spec fn fw_inv(self) -> bool {
        &&& self.firmware matches Some(fw) && fw@.wf()
    &&& self.chunk_retry >= 1
    }

    /// The current descriptor is the `steps`-th stop of the walk from
    /// descriptor 0, and the walk is still active.
    pub open spec fn walk_inv(self) -> bool {
        self.firmware matches Some(fw) && {
            let descs = fw@.descriptors;
            &&& self.image_idx < descs.len()
            &&& self.image_idx as int == visit_from(descs, 0, self.steps@)
            &&& active_from(descs, 0, self.steps@)
        }
    }

    /// Chunk bookkeeping for the current descriptor: a nonzero sixteen-byte
    /// multiple as chunk size, the chunk count that covers the slice, a
    /// current chunk inside it, and at least one attempt left.
    pub open spec fn chunk_inv(self) -> bool {
        self.firmware matches Some(fw) && {
            let d = fw@.descriptors[self.image_idx as int];
            &&& 16 <= self.chunk_size_eff
            &&& self.num_chunks as int == spec_num_chunks(
                d.image_size as int,
                self.chunk_size_eff as int,
            )
            &&& self.chunk_idx < self.num_chunks
            &&& self.chunk_attempts_left >= 1
        }
    }

    /// The machine's invariant, phase by phase.
    pub open spec fn inv(self) -> bool {
        match self.phase {
            Phase::Idle | Phase::Done | Phase::Failed => true,
            Phase::ConnectFirst | Phase::ResetterRunning | Phase::ConnectRetry | Phase::FetchDevId
                | Phase::FinalReset => self.fw_inv(),
            Phase::StartingUpload => self.fw_inv() && self.walk_inv(),
            Phase::SendingChunk => self.fw_inv() && self.walk_inv() && self.chunk_inv(),
        }
    }

    /// The configuration knobs are untouched by a step.
    pub open spec fn config_unchanged(self, other: Updater) -> bool {
        &&& self.connect_retry == other.connect_retry
        &&& self.resend_retry == other.resend_retry
        &&& self.chunk_retry == other.chunk_retry
        &&& self.connect_timeout_ms == other.connect_timeout_ms
        &&& self.request_timeout_ms == other.request_timeout_ms
        &&& self.chunk_timeout_ms == other.chunk_timeout_ms
        &&& self.chunk_size == other.chunk_size
    }

    /// A fresh machine with the default policy: five retries of each kind,
    /// one second to connect, two hundred milliseconds per request, five
    /// seconds per chunk, and kilobyte chunks.
    pub fn new() -> (r: Updater)
        ensures
            r.phase == Phase::Idle,
            r.inv(),
            r.connect_retry == 5,
            r.resend_retry == 5,
            r.chunk_retry == 5,
            r.connect_timeout_ms == 1000,
            r.request_timeout_ms == 200,
            r.chunk_timeout_ms == 5000,
            r.chunk_size == 1024,
    {
        Updater {
            connect_retry: 5,
            resend_retry: 5,
            chunk_retry: 5,
            connect_timeout_ms: 1000,
            request_timeout_ms: 200,
            chunk_timeout_ms: 5000,
            chunk_size: 1024,
            firmware: None,
            image_idx: 0,
            chunk_size_eff: 0,
            chunk_idx: 0,
            num_chunks: 0,
            chunk_attempts_left: 0,
            resend_left: 0,
            connect_attempts_left: 0,
            phase: Phase::Idle,
            steps: Ghost(0),
        }
    }

    /// Begin a session: take the firmware and send the first `Connect`. A
    /// firmware that fails validation never starts a session.
    pub fn start_upload_firmware(&mut self, firmware: FirmwareImage) -> (r: Vec<Action>)
        requires
            old(self).phase == Phase::Idle,
            old(self).chunk_retry >= 1,
        ensures
            final(self).inv(),
            old(self).config_unchanged(*final(self)),
            at_most_one_send(r@),
            forall|k: int| 0 <= k < r@.len() && is_send(#[trigger] r@[k]) ==> final(self).awaiting(),
            !firmware@.wf() ==> final(self).phase == Phase::Failed && r@.len() == 1 && (r@[0]
                matches Action::Fail(e) && e is Unsupported),
            firmware@.wf() ==> {
                &&& final(self).phase == Phase::ConnectFirst
                &&& final(self).firmware == Some(firmware)
                &&& final(self).resend_left == 0
                &&& r@.len() == 1
                &&& connect_action(r@[0], old(self).connect_timeout_ms)
            },
    {
        let mut r: Vec<Action> = Vec::new();
        if !firmware.validate() {
            self.phase = Phase::Failed;
            r.push(Action::Fail(Error::Unsupported));
            return r;
        }
        self.firmware = Some(firmware);
        self.resend_left = 0;
        self.phase = Phase::ConnectFirst;
        let frame = ConnectRequest.frame();
        r.push(Action::Send { frame, timeout_ms: self.connect_timeout_ms });
        r
    }

    /// Build and send the `StartUpload` for the current descriptor; the
    /// machine then awaits the chunk-size grant.
    fn begin_descriptor(&mut self) -> (a: Action)
        requires
            old(self).fw_inv(),
            old(self).walk_inv(),
        ensures
            final(self).fw_inv(),
            final(self).walk_inv(),
            *final(self) == (Updater {
                resend_left: old(self).resend_retry,
                phase: Phase::StartingUpload,
                ..*old(self)
            }),
            ({
                let fw = old(self).firmware.unwrap();
                let d = fw@.descriptors[old(self).image_idx as int];
                a matches Action::Send { frame, timeout_ms } && frame.command == 0x30
                    && frame.data@ == u24_be(d.image_size) + seq![1u8] && timeout_ms == old(
                    self,
                ).request_timeout_ms
            }),
    {
        let size = match &self.firmware {
            Some(fw) => fw.descriptors[self.image_idx].image_size,
            None => 0,
        };
        self.resend_left = self.resend_retry;
        self.phase = Phase::StartingUpload;
        let frame = (StartUploadRequest { image_size: size, mode: 1 }).frame();
        Action::Send { frame, timeout_ms: self.request_timeout_ms }
    }

    /// The session ends here: the machine asks for one final `Reset`, or
    /// moves to the next descriptor, or gives up on a descriptor kind it
    /// does not support.
    fn advance_descriptor(&mut self) -> (a: Action)
        requires
            old(self).fw_inv(),
            old(self).walk_inv(),
        ensures
            final(self).inv(),
            old(self).config_unchanged(*final(self)),
            advances(*old(self), *final(self), a),
            final(self).firmware == old(self).firmware,
    {
        let (next, ty) = match &self.firmware {
            Some(fw) => {
                let d = fw.descriptors[self.image_idx];
                (d.next_idx, d.image_type)
            },
            None => (0, 0),
        };
        if next == 0xFF {
            self.resend_left = 0;
            self.phase = Phase::FinalReset;
            let frame = ResetRequest.frame();
            Action::Send { frame, timeout_ms: self.request_timeout_ms }
        } else if ty == 0x00 {
            proof {
                let fw = self.firmware.unwrap();
                let descs = fw@.descriptors;
                assert(desc_wf(
                    descs[self.image_idx as int],
                    fw@.data.len() as int,
                    descs.len() as int,
                ));
                assert(active_from(descs, 0, self.steps@ + 1));
                assert(visit_from(descs, 0, self.steps@ + 1) == descs[self.image_idx as int].next_idx as int);
            }
            self.image_idx = next as usize;
            self.steps = Ghost(self.steps@ + 1);
            self.begin_descriptor()
        } else {
            self.phase = Phase::Failed;
            Action::Fail(Error::Unsupported)
        }
    }

    /// The current chunk is settled: report progress, then send the next
    /// chunk or move past this descriptor.
    fn finish_chunk(&mut self) -> (r: Vec<Action>)
        requires
            old(self).fw_inv(),
            old(self).walk_inv(),
            old(self).chunk_inv(),
        ensures
            final(self).inv(),
            old(self).config_unchanged(*final(self)),
            at_most_one_send(r@),
            forall|k: int| 0 <= k < r@.len() && is_send(#[trigger] r@[k]) ==> final(self).awaiting(),
            final(self).firmware == old(self).firmware,
            r@.len() == 2,
            r@[0] == (Action::Progress {
                chunk: old(self).chunk_idx,
                total: old(self).num_chunks,
            }),
            old(self).chunk_idx + 1 < old(self).num_chunks ==> ({
                &&& *final(self) == (Updater {
                    chunk_idx: (old(self).chunk_idx + 1) as u64,
                    chunk_attempts_left: old(self).chunk_retry,
                    resend_left: old(self).resend_retry,
                    phase: Phase::SendingChunk,
                    ..*old(self)
                })
                &&& sends_chunk(*old(self), *final(self), r@[1])
            }),
            old(self).chunk_idx + 1 >= old(self).num_chunks ==> advances(
                *old(self),
                *final(self),
                r@[1],
            ),
    {
        let mut r: Vec<Action> = Vec::new();
        r.push(Action::Progress { chunk: self.chunk_idx, total: self.num_chunks });
        if self.chunk_idx + 1 < self.num_chunks {
            self.chunk_idx = self.chunk_idx + 1;
            self.chunk_attempts_left = self.chunk_retry;
            let a = self.begin_chunk();
            r.push(a);
        } else {
            let a = self.advance_descriptor();
            r.push(a);
        }
        r
    }

    /// A decoded frame arrived for the pending exchange. Validation is the
    /// protocol's: the echoed command first, then the acknowledgement bit,
    /// then the payload shape. During connect, any invalid response counts
    /// as a failed attempt; during an upload, a protocol error on a chunk
    /// spends one of its attempts and anything else ends the session.
    pub fn on_frame(&mut self, frame: ResponseFrame) -> (r: Vec<Action>)
        requires
            old(self).inv(),
        ensures
            final(self).inv(),
            old(self).config_unchanged(*final(self)),
            at_most_one_send(r@),
            forall|k: int| 0 <= k < r@.len() && is_send(#[trigger] r@[k]) ==> final(self).awaiting(),
            final(self).firmware == old(self).firmware,
            match old(self).phase {
                Phase::ConnectFirst => {
                    if frame.command == 0x03 && frame.ack {
                        &&& *final(self) == (Updater {
                            resend_left: old(self).resend_retry,
                            phase: Phase::FetchDevId,
                            ..*old(self)
                        })
                        &&& r@.len() == 1
                        &&& (r@[0] matches Action::Send { frame: f, timeout_ms } && f.command
                            == 0x07 && f.data@ == Seq::<u8>::empty() && timeout_ms == old(
                            self,
                        ).request_timeout_ms)
                    } else {
                        &&& *final(self) == (Updater {
                            phase: Phase::ResetterRunning,
                            ..*old(self)
                        })
                        &&& r@.len() == 1
                        &&& r@[0] is Reset
                    }
                },
                Phase::ConnectRetry => {
                    if frame.command == 0x03 && frame.ack {
                        &&& *final(self) == (Updater {
                            resend_left: old(self).resend_retry,
                            phase: Phase::FetchDevId,
                            ..*old(self)
                        })
                        &&& r@.len() == 1
                        &&& (r@[0] matches Action::Send { frame: f, timeout_ms } && f.command
                            == 0x07 && f.data@ == Seq::<u8>::empty() && timeout_ms == old(
                            self,
                        ).request_timeout_ms)
                    } else if old(self).connect_attempts_left > 0 {
                        &&& *final(self) == (Updater {
                            connect_attempts_left: (old(self).connect_attempts_left - 1) as usize,
                            ..*old(self)
                        })
                        &&& r@.len() == 1
                        &&& connect_action(r@[0], 50)
                    } else {
                        &&& *final(self) == (Updater { phase: Phase::Failed, ..*old(self) })
                        &&& r@.len() == 1
                        &&& r@[0] == Action::Fail(Error::Timeout)
                    }
                },
                Phase::FetchDevId => {
                    if frame.command != 0x07 {
                        &&& *final(self) == (Updater { phase: Phase::Failed, ..*old(self) })
                        &&& r@.len() == 1
                        &&& r@[0] == Action::Fail(Error::InvalidCommand(frame))
                    } else if !frame.ack {
                        &&& *final(self) == (Updater { phase: Phase::Failed, ..*old(self) })
                        &&& r@.len() == 1
                        &&& r@[0] == Action::Fail(Error::InvalidResponse(frame))
                    } else if frame.data@.len() < 2 {
                        &&& *final(self) == (Updater { phase: Phase::Failed, ..*old(self) })
                        &&& r@.len() == 1
                        &&& r@[0] == Action::Fail(Error::Deserialize)
                    } else {
                        let id = spec_u16_from_be(frame.data@[0], frame.data@[1]);
                        if old(self).firmware.unwrap()@.device_ids.contains(id) {
                            &&& final(self).image_idx == 0
                            &&& final(self).steps@ == 0
                            &&& final(self).chunk_size_eff == old(self).chunk_size_eff
                            &&& final(self).num_chunks == old(self).num_chunks
                            &&& final(self).chunk_idx == old(self).chunk_idx
                            &&& final(self).chunk_attempts_left == old(self).chunk_attempts_left
                            &&& final(self).connect_attempts_left == old(
                                self,
                            ).connect_attempts_left
                            &&& r@.len() == 1
                            &&& starts_descriptor(*old(self), *final(self), r@[0])
                        } else {
                            &&& *final(self) == (Updater {
                                resend_left: 0,
                                phase: Phase::FinalReset,
                                ..*old(self)
                            })
                            &&& r@.len() == 1
                            &&& reset_request_action(r@[0], old(self).request_timeout_ms)
                        }
                    }
                },
                Phase::StartingUpload => {
                    if frame.command != 0x30 {
                        &&& *final(self) == (Updater { phase: Phase::Failed, ..*old(self) })
                        &&& r@.len() == 1
                        &&& r@[0] == Action::Fail(Error::InvalidCommand(frame))
                    } else if !frame.ack {
                        &&& *final(self) == (Updater { phase: Phase::Failed, ..*old(self) })
                        &&& r@.len() == 1
                        &&& r@[0] == Action::Fail(Error::InvalidResponse(frame))
                    } else if frame.data@.len() < 2 {
                        &&& *final(self) == (Updater { phase: Phase::Failed, ..*old(self) })
                        &&& r@.len() == 1
                        &&& r@[0] == Action::Fail(Error::Deserialize)
                    } else {
                        let max = spec_u16_from_be(frame.data@[0], frame.data@[1]);
                        let cs = effective_chunk_size(old(self).chunk_size, max);
                        let fw = old(self).firmware.unwrap();
                        let size = fw@.descriptors[old(self).image_idx as int].image_size;
                        if cs == 0 {
                            &&& *final(self) == (Updater { phase: Phase::Failed, ..*old(self) })
                            &&& r@.len() == 1
                            &&& r@[0] == Action::Fail(Error::Unsupported)
                        } else if size == 0 {
                            &&& r@.len() == 1
                            &&& advances(*old(self), *final(self), r@[0])
                        } else {
                            &&& final(self).chunk_idx == 0
                            &&& final(self).chunk_size_eff == cs
                            &&& final(self).num_chunks as int == spec_num_chunks(
                                size as int,
                                cs as int,
                            )
                            &&& final(self).chunk_attempts_left == old(self).chunk_retry
                            &&& final(self).image_idx == old(self).image_idx
                            &&& final(self).steps == old(self).steps
                            &&& final(self).connect_attempts_left == old(
                                self,
                            ).connect_attempts_left
                            &&& r@.len() == 1
                            &&& sends_chunk(*old(self), *final(self), r@[0])
                        }
                    }
                },
                Phase::SendingChunk => {
                    if frame.command == 0x31 && frame.ack && frame.data@.len() >= 2 {
                        let echo = spec_u16_from_be(frame.data@[0], frame.data@[1]);
                        if echo == chunk_wire_num(old(self).chunk_idx) || old(
                            self,
                        ).chunk_attempts_left <= 1 {
                            &&& r@.len() == 2
                            &&& r@[0] == (Action::Progress {
                                chunk: old(self).chunk_idx,
                                total: old(self).num_chunks,
                            })
                            &&& (old(self).chunk_idx + 1 < old(self).num_chunks ==> ({
                                &&& *final(self) == (Updater {
                                    chunk_idx: (old(self).chunk_idx + 1) as u64,
                                    chunk_attempts_left: old(self).chunk_retry,
                                    resend_left: old(self).resend_retry,
                                    phase: Phase::SendingChunk,
                                    ..*old(self)
                                })
                                &&& sends_chunk(*old(self), *final(self), r@[1])
                            }))
                            &&& (old(self).chunk_idx + 1 >= old(self).num_chunks ==> advances(
                                *old(self),
                                *final(self),
                                r@[1],
                            ))
                        } else {
                            &&& *final(self) == (Updater {
                                chunk_attempts_left: (old(self).chunk_attempts_left - 1) as usize,
                                resend_left: old(self).resend_retry,
                                ..*old(self)
                            })
                            &&& r@.len() == 1
                            &&& sends_chunk(*old(self), *final(self), r@[0])
                        }
                    } else {
                        if old(self).chunk_attempts_left > 1 {
                            &&& *final(self) == (Updater {
                                chunk_attempts_left: (old(self).chunk_attempts_left - 1) as usize,
                                resend_left: old(self).resend_retry,
                                ..*old(self)
                            })
                            &&& r@.len() == 1
                            &&& sends_chunk(*old(self), *final(self), r@[0])
                        } else {
                            &&& *final(self) == (Updater { phase: Phase::Failed, ..*old(self) })
                            &&& r@.len() == 1
                            &&& (frame.command != 0x31 ==> r@[0] == Action::Fail(
                                Error::InvalidCommand(frame),
                            ))
                            &&& (frame.command == 0x31 && !frame.ack ==> r@[0] == Action::Fail(
                                Error::InvalidResponse(frame),
                            ))
                            &&& (frame.command == 0x31 && frame.ack ==> r@[0] == Action::Fail(
                                Error::Deserialize,
                            ))
                        }
                    }
                },
                Phase::FinalReset => {
                    if frame.command == 0x02 && frame.ack {
                        &&& *final(self) == (Updater { phase: Phase::Done, ..*old(self) })
                        &&& r@.len() == 1
                        &&& r@[0] is Succeed
                    } else if frame.command != 0x02 {
                        &&& *final(self) == (Updater { phase: Phase::Failed, ..*old(self) })
                        &&& r@.len() == 1
                        &&& r@[0] == Action::Fail(Error::InvalidCommand(frame))
                    } else {
                        &&& *final(self) == (Updater { phase: Phase::Failed, ..*old(self) })
                        &&& r@.len() == 1
                        &&& r@[0] == Action::Fail(Error::InvalidResponse(frame))
                    }
                },
                _ => *final(self) == *old(self) && r@.len() == 0,
            },
    {
        let mut r: Vec<Action> = Vec::new();
        match self.phase {
            Phase::ConnectFirst => {
                match from_frame::<ConnectRequest>(frame) {
                    Ok(_) => {
                        self.resend_left = self.resend_retry;
                        self.phase = Phase::FetchDevId;
                        let f = GetDevIDRequest.frame();
                        r.push(Action::Send { frame: f, timeout_ms: self.request_timeout_ms });
                    },
                    Err(_) => {
                        self.phase = Phase::ResetterRunning;
                        r.push(Action::Reset);
                    },
                }
            },
            Phase::ConnectRetry => {
                match from_frame::<ConnectRequest>(frame) {
                    Ok(_) => {
                        self.resend_left = self.resend_retry;
                        self.phase = Phase::FetchDevId;
                        let f = GetDevIDRequest.frame();
                        r.push(Action::Send { frame: f, timeout_ms: self.request_timeout_ms });
                    },
                    Err(_) => {
                        if self.connect_attempts_left > 0 {
                            self.connect_attempts_left = self.connect_attempts_left - 1;
                            let f = ConnectRequest.frame();
                            r.push(Action::Send { frame: f, timeout_ms: 50 });
                        } else {
                            self.phase = Phase::Failed;
                            r.push(Action::Fail(Error::Timeout));
                        }
                    },
                }
            },
            Phase::FetchDevId => {
                match from_frame::<GetDevIDRequest>(frame) {
                    Ok(GetDevIDResponse(id)) => {
                        let applies = match &self.firmware {
                            Some(fw) => fw.contains_device(id),
                            None => false,
                        };
                        if applies {
                            self.image_idx = 0;
                            self.steps = Ghost(0);
                            proof {
                                let descs = self.firmware.unwrap()@.descriptors;
                                assert(visit_from(descs, 0, 0) == 0);
                                assert(active_from(descs, 0, 0));
                            }
                            let a = self.begin_descriptor();
                            r.push(a);
                        } else {
                            self.resend_left = 0;
                            self.phase = Phase::FinalReset;
                            let f = ResetRequest.frame();
                            r.push(Action::Send { frame: f, timeout_ms: self.request_timeout_ms });
                        }
                    },
                    Err(e) => {
                        self.phase = Phase::Failed;
                        r.push(Action::Fail(e));
                    },
                }
            },
            Phase::StartingUpload => {
                match from_frame::<StartUploadRequest>(frame) {
                    Ok(StartUploadResponse(max)) => {
                        let m = if self.chunk_size < max {
                            self.chunk_size
                        } else {
                            max
                        };
                        let cs = (m / 16) * 16;
                        let size = match &self.firmware {
                            Some(fw) => fw.descriptors[self.image_idx].image_size,
                            None => 0,
                        };
                        if cs == 0 {
                            self.phase = Phase::Failed;
                            r.push(Action::Fail(Error::Unsupported));
                        } else if size == 0 {
                            let a = self.advance_descriptor();
                            r.push(a);
                        } else {
                            let size64: u64 = size as u64;
                            let cs64: u64 = cs as u64;
                            let num = (size64 + cs64 - 1) / cs64;
                            proof {
                                assert(num >= 1) by (nonlinear_arith)
                                    requires
                                        num as int == (size64 as int + cs64 as int - 1) / (
                                        cs64 as int),
                                        size64 >= 1,
                                        cs64 >= 1,
                                ;
                            }
                            self.chunk_idx = 0;
                            self.chunk_size_eff = cs;
                            self.num_chunks = num;
                            self.chunk_attempts_left = self.chunk_retry;
                            let a = self.begin_chunk();
                            r.push(a);
                        }
                    },
                    Err(e) => {
                        self.phase = Phase::Failed;
                        r.push(Action::Fail(e));
                    },
                }
            },
            Phase::SendingChunk => {
                match from_frame::<SendChunkRequest>(frame) {
                    Ok(SendChunkResponse(echo)) => {
                        let wire = (self.chunk_idx % 0x10000) as u16;
                        if echo == wire || self.chunk_attempts_left <= 1 {
                            let mut done = self.finish_chunk();
                            r.append(&mut done);
                        } else {
                            self.chunk_attempts_left = self.chunk_attempts_left - 1;
                            let a = self.begin_chunk();
                            r.push(a);
                        }
                    },
                    Err(e) => {
                        if self.chunk_attempts_left > 1 {
                            self.chunk_attempts_left = self.chunk_attempts_left - 1;
                            let a = self.begin_chunk();
                            r.push(a);
                        } else {
                            self.phase = Phase::Failed;
                            r.push(Action::Fail(e));
                        }
                    },
                }
            },
            Phase::FinalReset => {
                match from_frame::<ResetRequest>(frame) {
                    Ok(_) => {
                        self.phase = Phase::Done;
                        r.push(Action::Succeed);
                    },
                    Err(e) => {
                        self.phase = Phase::Failed;
                        r.push(Action::Fail(e));
                    },
                }
            },
            _ => {},
        }
        r
    }

    /// The read deadline of the pending exchange elapsed. The buffered
    /// bytes are stale and must be dropped; then the machine recovers where
    /// the policy allows — a `ResendLast` while resends remain, a fresh
    /// chunk attempt, the reset-assisted connect round — and otherwise the
    /// session times out. An elapsed deadline never leaves the machine
    /// waiting without an action.
    pub fn on_timeout(&mut self) -> (r: Vec<Action>)
        requires
            old(self).inv(),
        ensures
            final(self).inv(),
            old(self).config_unchanged(*final(self)),
            at_most_one_send(r@),
            forall|k: int| 0 <= k < r@.len() && is_send(#[trigger] r@[k]) ==> final(self).awaiting(),
            final(self).firmware == old(self).firmware,
            old(self).awaiting() ==> r@.len() == 2 && r@[0] is ClearReadBuffer,
            match old(self).phase {
                Phase::ConnectFirst => *final(self) == (Updater {
                    phase: Phase::ResetterRunning,
                    ..*old(self)
                }) && r@[1] is Reset,
                Phase::ConnectRetry => {
                    if old(self).connect_attempts_left > 0 {
                        &&& *final(self) == (Updater {
                            connect_attempts_left: (old(self).connect_attempts_left - 1) as usize,
                            ..*old(self)
                        })
                        &&& connect_action(r@[1], 50)
                    } else {
                        &&& *final(self) == (Updater { phase: Phase::Failed, ..*old(self) })
                        &&& r@[1] == Action::Fail(Error::Timeout)
                    }
                },
                Phase::FetchDevId | Phase::StartingUpload | Phase::FinalReset => {
                    if old(self).resend_left > 0 {
                        &&& *final(self) == (Updater {
                            resend_left: (old(self).resend_left - 1) as usize,
                            ..*old(self)
                        })
                        &&& resend_action(r@[1], old(self).phase_timeout())
                    } else {
                        &&& *final(self) == (Updater { phase: Phase::Failed, ..*old(self) })
                        &&& r@[1] == Action::Fail(Error::Timeout)
                    }
                },
                Phase::SendingChunk => {
                    if old(self).resend_left > 0 {
                        &&& *final(self) == (Updater {
                            resend_left: (old(self).resend_left - 1) as usize,
                            ..*old(self)
                        })
                        &&& resend_action(r@[1], old(self).chunk_timeout_ms)
                    } else if old(self).chunk_attempts_left > 1 {
                        &&& *final(self) == (Updater {
                            chunk_attempts_left: (old(self).chunk_attempts_left - 1) as usize,
                            resend_left: old(self).resend_retry,
                            ..*old(self)
                        })
                        &&& sends_chunk(*old(self), *final(self), r@[1])
                    } else {
                        &&& *final(self) == (Updater { phase: Phase::Failed, ..*old(self) })
                        &&& r@[1] == Action::Fail(Error::Timeout)
                    }
                },
                _ => *final(self) == *old(self) && r@.len() == 0,
            },
    {
        let mut r: Vec<Action> = Vec::new();
        match self.phase {
            Phase::ConnectFirst => {
                r.push(Action::ClearReadBuffer);
                self.phase = Phase::ResetterRunning;
                r.push(Action::Reset);
            },
            Phase::ConnectRetry => {
                r.push(Action::ClearReadBuffer);
                if self.connect_attempts_left > 0 {
                    self.connect_attempts_left = self.connect_attempts_left - 1;
                    let f = ConnectRequest.frame();
                    r.push(Action::Send { frame: f, timeout_ms: 50 });
                } else {
                    self.phase = Phase::Failed;
                    r.push(Action::Fail(Error::Timeout));
                }
            },
            Phase::FetchDevId | Phase::StartingUpload | Phase::FinalReset => {
                r.push(Action::ClearReadBuffer);
                if self.resend_left > 0 {
                    self.resend_left = self.resend_left - 1;
                    let f = RequestFrame::new(0x01, Vec::new());
                    let t = match self.phase {
                        Phase::ConnectFirst => self.connect_timeout_ms,
                        Phase::ConnectRetry => 50,
                        Phase::SendingChunk => self.chunk_timeout_ms,
                        _ => self.request_timeout_ms,
                    };
                    r.push(Action::Send { frame: f, timeout_ms: t });
                } else {
                    self.phase = Phase::Failed;
                    r.push(Action::Fail(Error::Timeout));
                }
            },
            Phase::SendingChunk => {
                r.push(Action::ClearReadBuffer);
                if self.resend_left > 0 {
                    self.resend_left = self.resend_left - 1;
                    let f = RequestFrame::new(0x01, Vec::new());
                    r.push(Action::Send { frame: f, timeout_ms: self.chunk_timeout_ms });
                } else if self.chunk_attempts_left > 1 {
                    self.chunk_attempts_left = self.chunk_attempts_left - 1;
                    let a = self.begin_chunk();
                    r.push(a);
                } else {
                    self.phase = Phase::Failed;
                    r.push(Action::Fail(Error::Timeout));
                }
            },
            _ => {},
        }
        r
    }

    /// The caller could not decode what arrived: a structural or checksum
    /// failure in the byte stream. It surfaces at once — no resend — except
    /// where the policy retries the whole attempt: the connect round and
    /// the per-chunk budget. A retried attempt first drops the buffered
    /// bytes, which the decoder already rejected.
    pub fn on_decode_error(&mut self, e: Error) -> (r: Vec<Action>)
        requires
            old(self).inv(),
        ensures
            final(self).inv(),
            old(self).config_unchanged(*final(self)),
            at_most_one_send(r@),
            forall|k: int| 0 <= k < r@.len() && is_send(#[trigger] r@[k]) ==> final(self).awaiting(),
            final(self).firmware == old(self).firmware,
            match old(self).phase {
                Phase::ConnectFirst => *final(self) == (Updater {
                    phase: Phase::ResetterRunning,
                    ..*old(self)
                }) && r@.len() == 1 && r@[0] is Reset,
                Phase::ConnectRetry => {
                    if old(self).connect_attempts_left > 0 {
                        &&& *final(self) == (Updater {
                            connect_attempts_left: (old(self).connect_attempts_left - 1) as usize,
                            ..*old(self)
                        })
                        &&& r@.len() == 2
                        &&& r@[0] is ClearReadBuffer
                        &&& connect_action(r@[1], 50)
                    } else {
                        &&& *final(self) == (Updater { phase: Phase::Failed, ..*old(self) })
                        &&& r@.len() == 1
                        &&& r@[0] == Action::Fail(Error::Timeout)
                    }
                },
                Phase::FetchDevId | Phase::StartingUpload | Phase::FinalReset => *final(self)
                    == (Updater { phase: Phase::Failed, ..*old(self) }) && r@.len() == 1 && r@[0]
                    == Action::Fail(e),
                Phase::SendingChunk => {
                    if old(self).chunk_attempts_left > 1 {
                        &&& *final(self) == (Updater {
                            chunk_attempts_left: (old(self).chunk_attempts_left - 1) as usize,
                            resend_left: old(self).resend_retry,
                            ..*old(self)
                        })
                        &&& r@.len() == 2
                        &&& r@[0] is ClearReadBuffer
                        &&& sends_chunk(*old(self), *final(self), r@[1])
                    } else {
                        &&& *final(self) == (Updater { phase: Phase::Failed, ..*old(self) })
                        &&& r@.len() == 1
                        &&& r@[0] == Action::Fail(e)
                    }
                },
                _ => *final(self) == *old(self) && r@.len() == 0,
            },
    {
        let mut r: Vec<Action> = Vec::new();
        match self.phase {
            Phase::ConnectFirst => {
                self.phase = Phase::ResetterRunning;
                r.push(Action::Reset);
            },
            Phase::ConnectRetry => {
                if self.connect_attempts_left > 0 {
                    self.connect_attempts_left = self.connect_attempts_left - 1;
                    r.push(Action::ClearReadBuffer);
                    let f = ConnectRequest.frame();
                    r.push(Action::Send { frame: f, timeout_ms: 50 });
                } else {
                    self.phase = Phase::Failed;
                    r.push(Action::Fail(Error::Timeout));
                }
            },
            Phase::FetchDevId | Phase::StartingUpload | Phase::FinalReset => {
                self.phase = Phase::Failed;
                r.push(Action::Fail(e));
            },
            Phase::SendingChunk => {
                if self.chunk_attempts_left > 1 {
                    self.chunk_attempts_left = self.chunk_attempts_left - 1;
                    r.push(Action::ClearReadBuffer);
                    let a = self.begin_chunk();
                    r.push(a);
                } else {
                    self.phase = Phase::Failed;
                    r.push(Action::Fail(e));
                }
            },
            _ => {},
        }
        r
    }

    /// The reset capability finished. A failure there is fatal; success
    /// opens the budgeted round of quick `Connect` attempts, or times the
    /// session out when the budget is zero.
    pub fn on_reset_result(&mut self, ok: bool) -> (r: Vec<Action>)
        requires
            old(self).inv(),
        ensures
            final(self).inv(),
            old(self).config_unchanged(*final(self)),
            at_most_one_send(r@),
            forall|k: int| 0 <= k < r@.len() && is_send(#[trigger] r@[k]) ==> final(self).awaiting(),
            final(self).firmware == old(self).firmware,
            match old(self).phase {
                Phase::ResetterRunning => {
                    if !ok {
                        &&& *final(self) == (Updater { phase: Phase::Failed, ..*old(self) })
                        &&& r@.len() == 1
                        &&& r@[0] == Action::Fail(Error::Other)
                    } else if old(self).connect_retry == 0 {
                        &&& *final(self) == (Updater { phase: Phase::Failed, ..*old(self) })
                        &&& r@.len() == 1
                        &&& r@[0] == Action::Fail(Error::Timeout)
                    } else {
                        &&& *final(self) == (Updater {
                            connect_attempts_left: (old(self).connect_retry - 1) as usize,
                            resend_left: 0,
                            phase: Phase::ConnectRetry,
                            ..*old(self)
                        })
                        &&& r@.len() == 1
                        &&& connect_action(r@[0], 50)
                    }
                },
                _ => *final(self) == *old(self) && r@.len() == 0,
            },
    {
        let mut r: Vec<Action> = Vec::new();
        match self.phase {
            Phase::ResetterRunning => {
                if !ok {
                    self.phase = Phase::Failed;
                    r.push(Action::Fail(Error::Other));
                } else if self.connect_retry == 0 {
                    self.phase = Phase::Failed;
                    r.push(Action::Fail(Error::Timeout));
                } else {
                    self.connect_attempts_left = self.connect_retry - 1;
                    self.resend_left = 0;
                    self.phase = Phase::ConnectRetry;
                    let f = ConnectRequest.frame();
                    r.push(Action::Send { frame: f, timeout_ms: 50 });
                }
            },
            _ => {},
        }
        r
    }

    /// Build and send the `SendChunk` for the current chunk; the machine
    /// then awaits the echoed index.
    fn begin_chunk(&mut self) -> (a: Action)
        requires
            old(self).fw_inv(),
            old(self).walk_inv(),
            old(self).chunk_inv(),
        ensures
            final(self).fw_inv(),
            final(self).walk_inv(),
            final(self).chunk_inv(),
            final(self).phase == Phase::SendingChunk,
            final(self).resend_left == old(self).resend_retry,
            *final(self) == (Updater {
                resend_left: old(self).resend_retry,
                phase: Phase::SendingChunk,
                ..*old(self)
            }),
            ({
                let fw = old(self).firmware.unwrap();
                a matches Action::Send { frame, timeout_ms } && frame.command == 0x31
                    && frame.data@ == u16_be(chunk_wire_num(old(self).chunk_idx)) + chunk_data(
                    fw@,
                    old(self).image_idx as int,
                    old(self).chunk_size_eff as int,
                    old(self).chunk_idx as int,
                ) && timeout_ms == old(self).chunk_timeout_ms
            }),
    {
        let payload = match &self.firmware {
            Some(fw) => chunk_payload(fw, self.image_idx, self.chunk_size_eff, self.chunk_idx),
            None => Vec::new(),
        };
        let wire_num = (self.chunk_idx % 0x10000) as u16;
        assert(wire_num == chunk_wire_num(self.chunk_idx));
        self.resend_left = self.resend_retry;
        self.phase = Phase::SendingChunk;
        let frame = (SendChunkRequest { chunk_num: wire_num, data: payload }).frame();
        Action::Send { frame, timeout_ms: self.chunk_timeout_ms }
    }
}

/// The bytes of one chunk window, copied out of the image data.
fn chunk_payload(fw: &FirmwareImage, image_idx: usize, cs: u16, c: u64) -> (r: Vec<u8>)
    requires
        fw@.wf(),
        image_idx < fw@.descriptors.len(),
        cs >= 1,
        c < spec_num_chunks(
            fw@.descriptors[image_idx as int].image_size as int,
            cs as int,
        ),
    ensures
        r@ == chunk_data(fw@, image_idx as int, cs as int, c as int),
{
    let d = fw.descriptors[image_idx];
    let size: u64 = d.image_size as u64;
    let off: u64 = d.image_offset as u64;
    let cs64: u64 = cs as u64;
    proof {
        lemma_chunk_start(size as int, cs as int, c as int);
        assert((c as int + 1) * (cs as int) == c as int * cs as int + cs as int) by (nonlinear_arith);
        assert(fw@.descriptors[image_idx as int].image_offset + fw@.descriptors[image_idx as int].image_size
            <= fw@.data.len());
    }
    let lo: u64 = c * cs64;
    let hi: u64 = if lo + cs64 <= size {
        lo + cs64
    } else {
        size
    };
    let data_len: usize = fw.data.len();
    proof {
        assert(data_len == fw@.data.len());
        assert(fw@.data.len() <= usize::MAX);
    }
    let mut r: Vec<u8> = Vec::new();
    let mut k: u64 = lo;
    while k < hi
        invariant
            lo <= k <= hi,
            hi <= size,
            fw@.data.len() <= usize::MAX,
            off + size <= fw@.data.len(),
            off == fw@.descriptors[image_idx as int].image_offset,
            size == fw@.descriptors[image_idx as int].image_size,
            image_idx < fw@.descriptors.len(),
            r@ == fw@.data.subrange(off + lo as int, off + k as int),
        decreases hi - k,
    {
        proof {
            assert(off + k < fw@.data.len());
        }
        r.push(fw.data[(off + k) as usize]);
        proof {
            assert(r@ =~= fw@.data.subrange(off + lo as int, off + k as int + 1));
        }
        k = k + 1;
    }
    proof {
        assert(r@ =~= chunk_data(fw@, image_idx as int, cs as int, c as int));
    }
    r
}

/// The first byte of a chunk lies inside the slice: with `n` chunks
/// covering `size` bytes, every chunk before the last starts short of the
/// end.
proof fn lemma_chunk_start(size: int, cs: int, c: int)
    requires
        cs >= 1,
        0 <= c,
        c < spec_num_chunks(size, cs),
    ensures
        c * cs < size,
        c * cs >= 0,
{
    let q = (size + cs - 1) / cs;
    vstd::arithmetic::div_mod::lemma_fundamental_div_mod(size + cs - 1, cs);
    assert(size + cs - 1 == cs * q + (size + cs - 1) % cs);
    vstd::arithmetic::div_mod::lemma_mod_bound(size + cs - 1, cs);
    assert(c <= q - 1);
    vstd::arithmetic::mul::lemma_mul_inequality(c, q - 1, cs);
    assert(c * cs <= (q - 1) * cs);
    assert((q - 1) * cs == cs * q - cs) by (nonlinear_arith);
    vstd::arithmetic::mul::lemma_mul_nonnegative(c, cs);
}

} // verus!

