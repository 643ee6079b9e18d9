//! The reset capability's decision logic: the AT-command handshake that
//! drops the adapter into its bootloader. The caller performs the byte I/O
//! and the sleep; this machine decides what to write and when the handshake
//! has succeeded. Write `"?\r"` and await a `>` prompt; write `"ATZ\r"` and
//! await its echo; then rest briefly before the bootloader session begins.

use vstd::prelude::*;

verus! {

/// The prompt-request bytes, `?\r` in ASCII.
pub open spec fn prompt_request() -> Seq<u8> {
    seq![0x3Fu8, 0x0Du8]
}

/// The reset command bytes, `ATZ\r` in ASCII.
pub open spec fn atz_command() -> Seq<u8> {
    seq![0x41u8, 0x54u8, 0x5Au8, 0x0Du8]
}

/// What the caller must do next.
pub enum ResetAction {
    /// Drop any pending input from the transport.
    ClearInput,
    /// Write these bytes to the transport.
    Write(Vec<u8>),
    /// Sleep this many milliseconds, then report `on_sleep_done`.
    Sleep(u64),
    /// The handshake is complete.
    Succeed,
    /// The handshake failed; the session is over.
    Fail,
}

/// Where the handshake stands.
#[derive(Debug, PartialEq, Eq, Structural, Clone, Copy)]
pub enum ResetPhase {
    /// Nothing has been written yet.
    Idle,
    /// `?\r` was written; waiting for a `>` prompt.
    AwaitPrompt,
    /// `ATZ\r` was written; `matched` bytes of its echo have been seen.
    AwaitEcho { matched: u8 },
    /// The echo arrived; resting before the session starts.
    Sleeping,
    /// The handshake is complete.
    Done,
    /// The handshake failed.
    Failed,
}

/// The handshake driver. Feed it each received byte and each elapsed
/// deadline; perform the actions it hands back.
pub struct Resetter {
    pub phase: ResetPhase,
}

impl Resetter {
    pub fn new() -> (r: Resetter)
        ensures
            r.phase == ResetPhase::Idle,
    {
        Resetter { phase: ResetPhase::Idle }
    }

    /// Begin the handshake: clear pending input, then ask for a prompt.
    pub fn start(&mut self) -> (r: Vec<ResetAction>)
        requires
            old(self).phase == ResetPhase::Idle,
        ensures
            final(self).phase == ResetPhase::AwaitPrompt,
            r@.len() == 2,
            r@[0] is ClearInput,
            r@[1] matches ResetAction::Write(b) && b@ == prompt_request(),
    {
        self.phase = ResetPhase::AwaitPrompt;
        let mut out: Vec<u8> = Vec::new();
        out.push(0x3F);
        out.push(0x0D);
        proof {
            assert(out@ =~= prompt_request());
        }
        let mut r: Vec<ResetAction> = Vec::new();
        r.push(ResetAction::ClearInput);
        r.push(ResetAction::Write(out));
        r
    }

    /// One received byte. While awaiting the prompt, anything before `>` is
    /// skipped; the prompt triggers the reset command. While awaiting the
    /// echo, the received bytes must spell `ATZ\r`; any other byte fails the
    /// handshake.
    pub fn on_byte(&mut self, b: u8) -> (r: Vec<ResetAction>)
        ensures
            match old(self).phase {
                ResetPhase::AwaitPrompt => {
                    if b == 0x3E {
                        &&& final(self).phase == (ResetPhase::AwaitEcho { matched: 0 })
                        &&& r@.len() == 1
                        &&& (r@[0] matches ResetAction::Write(w) && w@ == atz_command())
                    } else {
                        final(self).phase == old(self).phase && r@.len() == 0
                    }
                },
                ResetPhase::AwaitEcho { matched } => {
                    if matched < 4 && b == atz_command()[matched as int] {
                        if matched == 3 {
                            &&& final(self).phase == ResetPhase::Sleeping
                            &&& r@.len() == 1
                            &&& (r@[0] matches ResetAction::Sleep(ms) && ms == 100)
                        } else {
                            &&& final(self).phase == (ResetPhase::AwaitEcho {
                                matched: (matched + 1) as u8,
                            })
                            &&& r@.len() == 0
                        }
                    } else {
                        final(self).phase == ResetPhase::Failed && r@.len() == 1 && r@[0] is Fail
                    }
                },
                _ => final(self).phase == old(self).phase && r@.len() == 0,
            },
    {
        let mut r: Vec<ResetAction> = Vec::new();
        match self.phase {
            ResetPhase::AwaitPrompt => {
                if b == 0x3E {
                    self.phase = ResetPhase::AwaitEcho { matched: 0 };
                    let mut out: Vec<u8> = Vec::new();
                    out.push(0x41);
                    out.push(0x54);
                    out.push(0x5A);
                    out.push(0x0D);
                    proof {
                        assert(out@ =~= atz_command());
                    }
                    r.push(ResetAction::Write(out));
                }
            },
            ResetPhase::AwaitEcho { matched } => {
                let expect: u8 = if matched == 0 {
                    0x41
                } else if matched == 1 {
                    0x54
                } else if matched == 2 {
                    0x5A
                } else {
                    0x0D
                };
                if matched < 4 && b == expect {
                    if matched == 3 {
                        self.phase = ResetPhase::Sleeping;
                        r.push(ResetAction::Sleep(100));
                    } else {
                        self.phase = ResetPhase::AwaitEcho { matched: matched + 1 };
                    }
                } else {
                    self.phase = ResetPhase::Failed;
                    r.push(ResetAction::Fail);
                }
            },
            _ => {},
        }
        r
    }

    /// A wait for the prompt or the echo ran out of time: the handshake is
    /// over.
    pub fn on_timeout(&mut self) -> (r: Vec<ResetAction>)
        ensures
            match old(self).phase {
                ResetPhase::AwaitPrompt | ResetPhase::AwaitEcho { .. } => final(self).phase
                    == ResetPhase::Failed && r@.len() == 1 && r@[0] is Fail,
                _ => final(self).phase == old(self).phase && r@.len() == 0,
            },
    {
        let mut r: Vec<ResetAction> = Vec::new();
        match self.phase {
            ResetPhase::AwaitPrompt => {
                self.phase = ResetPhase::Failed;
                r.push(ResetAction::Fail);
            },
            ResetPhase::AwaitEcho { .. } => {
                self.phase = ResetPhase::Failed;
                r.push(ResetAction::Fail);
            },
            _ => {},
        }
        r
    }

    /// The rest after the echo is over: the device is in its bootloader.
    pub fn on_sleep_done(&mut self) -> (r: Vec<ResetAction>)
        ensures
            match old(self).phase {
                ResetPhase::Sleeping => final(self).phase == ResetPhase::Done && r@.len() == 1
                    && r@[0] is Succeed,
                _ => final(self).phase == old(self).phase && r@.len() == 0,
            },
    {
        let mut r: Vec<ResetAction> = Vec::new();
        match self.phase {
            ResetPhase::Sleeping => {
                self.phase = ResetPhase::Done;
                r.push(ResetAction::Succeed);
            },
            _ => {},
        }
        r
    }
}

} // verus!
