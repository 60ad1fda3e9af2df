//! The GPU mailbox: a 36-word property buffer and the polling exchange that
//! hands it to the GPU.
//!
//! The exchange itself is a state machine: the caller reads the registers the
//! machine asks for, feeds each word read back in through `MailboxCall::step`,
//! and performs the action that comes out, until `MailboxAction::Complete`.
use vstd::prelude::*;

verus! {

/// Base of the peripheral window in the CPU's physical address space.
pub const MMIO_BASE: u32 = 0x3F00_0000;

/// Base of the VideoCore mailbox registers.
pub const VCORE_MBOX: u32 = MMIO_BASE + 0x0000_B880;

/// Register the GPU's answers are read from.
pub const MBOX_READ: u32 = VCORE_MBOX + 0x0;

/// Status register: `MBOX_FULL` and `MBOX_EMPTY` flags.
pub const MBOX_STATUS: u32 = VCORE_MBOX + 0x18;

/// Register a request message is written to.
pub const MBOX_WRITE: u32 = VCORE_MBOX + 0x20;

/// Number of 32-bit words in the property buffer.
pub const MBOX_WORDS: usize = 36;

/// Code in word 1 of a buffer that is sent as a request.
pub const MBOX_REQUEST: u32 = 0;

/// Code in word 1 of a buffer that the GPU has answered successfully.
pub const MBOX_RESPONSE: u32 = 0x8000_0000;

/// Status flag: the write queue cannot take a message yet.
pub const MBOX_FULL: u32 = 0x8000_0000;

/// Status flag: no answer is waiting in the read queue.
pub const MBOX_EMPTY: u32 = 0x4000_0000;

pub const MBOX_CH_POWER: u32 = 0;
pub const MBOX_CH_FB: u32 = 1;
pub const MBOX_CH_VUART: u32 = 2;
pub const MBOX_CH_VCHIQ: u32 = 3;
pub const MBOX_CH_LEDS: u32 = 4;
pub const MBOX_CH_BTNS: u32 = 5;
pub const MBOX_CH_TOUCH: u32 = 6;
pub const MBOX_CH_COUNT: u32 = 7;

/// The property channel, which carries every tagged request.
pub const MBOX_CH_PROP: u32 = 8;

pub const MBOX_TAG_GETSERIAL: u32 = 0x10004;
pub const MBOX_TAG_SETPOWER: u32 = 0x28001;
pub const MBOX_TAG_SETCLKRATE: u32 = 0x38002;

/// The end tag that closes a tag stream.
pub const MBOX_TAG_LAST: u32 = 0;

/// The property buffer. The GPU reads the request from it and writes its
/// answer over the same words; it must sit at a 16-byte-aligned address.
#[derive(Clone, Debug, PartialEq, Eq)]
pub struct MailBox {
    pub mbox: [u32; 36],
}

impl View for MailBox {
    type V = Seq<u32>;

    open spec fn view(&self) -> Seq<u32> {
        self.mbox@
    }
}

/// Every word of `words` is zero.
pub open spec fn all_zero(words: Seq<u32>) -> bool {
    forall|i: int| 0 <= i < words.len() ==> words[i] == 0
}

/// The word written to the mailbox for a buffer at `addr` on `channel`: the
/// address with its low four bits replaced by the channel number.
pub open spec fn spec_message(addr: u32, channel: u32) -> u32 {
    (addr & !0xFu32) | (channel & 0xFu32)
}

impl MailBox {
    /// A buffer with every word zero.
    pub fn new() -> (r: MailBox)
        ensures
            all_zero(r@),
    {
        MailBox { mbox: [0u32; 36] }
    }

    /// Zero every word of the buffer; the tags written before are gone.
    pub fn clear(&mut self)
        ensures
            all_zero(final(self)@),
    {
        self.mbox = [0u32; 36];
    }

    /// Start an exchange of this buffer, which lies at `addr`, on `channel`.
    /// The buffer is handed over as it stands: nothing in it is reset.
    pub fn call(&self, addr: u32, channel: u32) -> (r: MailboxCall)
        ensures
            r.message == spec_message(addr, channel),
            r.phase == CallPhase::Sending,
    {
        MailboxCall { message: message(addr, channel), phase: CallPhase::Sending }
    }
}

/// The word that announces a buffer at `addr` on `channel`.
pub fn message(addr: u32, channel: u32) -> (r: u32)
    ensures
        r == spec_message(addr, channel),
        r & 0xF == channel & 0xF,
        r & !0xFu32 == addr & !0xFu32,
{
    let r = (addr & !0xFu32) | (channel & 0xFu32);
    assert(r & 0xF == channel & 0xF && r & !0xFu32 == addr & !0xFu32) by (bit_vector)
        requires
            r == (addr & !0xFu32) | (channel & 0xFu32),
    ;
    r
}

/// Where an exchange stands.
#[derive(Clone, Copy, Debug, PartialEq, Eq)]
pub enum CallPhase {
    /// Waiting for room in the write queue; the next word is a status word.
    Sending,
    /// The message is sent; the next word is a status word.
    Awaiting,
    /// An answer is waiting; the next word is the one read from `MBOX_READ`.
    Receiving,
    /// The GPU echoed the message; `accepted` says whether it filled in the
    /// buffer.
    Done { accepted: bool },
}

/// What the caller does next for an exchange.
#[derive(Clone, Copy, Debug, PartialEq, Eq)]
pub enum MailboxAction {
    /// Spin one cycle, then read `MBOX_STATUS` and step with it.
    Wait,
    /// Write the word to `MBOX_WRITE`, then read `MBOX_STATUS` and step with it.
    Send(u32),
    /// Read `MBOX_STATUS` and step with it.
    ReadStatus,
    /// Read `MBOX_READ` and step with it.
    Receive,
    /// The exchange is over; `true` when the GPU answered with
    /// `MBOX_RESPONSE`.
    Complete(bool),
}

/// One exchange of a buffer with the GPU.
#[derive(Clone, Copy, Debug, PartialEq, Eq)]
pub struct MailboxCall {
    pub message: u32,
    pub phase: CallPhase,
}

impl MailboxCall {
    /// One step of the exchange, given word 1 of the buffer as it stands and
    /// the word just read from the register the last action named.
    pub open spec fn spec_step(self, word1: u32, value: u32) -> (MailboxCall, MailboxAction) {
        match self.phase {
            CallPhase::Sending => if value & MBOX_FULL != 0 {
                (self, MailboxAction::Wait)
            } else {
                (
                    MailboxCall { message: self.message, phase: CallPhase::Awaiting },
                    MailboxAction::Send(self.message),
                )
            },
            CallPhase::Awaiting => if value & MBOX_EMPTY != 0 {
                (self, MailboxAction::Wait)
            } else {
                (
                    MailboxCall { message: self.message, phase: CallPhase::Receiving },
                    MailboxAction::Receive,
                )
            },
            CallPhase::Receiving => if value == self.message {
                (
                    MailboxCall {
                        message: self.message,
                        phase: CallPhase::Done { accepted: word1 == MBOX_RESPONSE },
                    },
                    MailboxAction::Complete(word1 == MBOX_RESPONSE),
                )
            } else {
                (
                    MailboxCall { message: self.message, phase: CallPhase::Awaiting },
                    MailboxAction::ReadStatus,
                )
            },
            CallPhase::Done { accepted } => (self, MailboxAction::Complete(accepted)),
        }
    }

    /// The state after feeding `values` in, one step each.
    pub open spec fn run(self, word1: u32, values: Seq<u32>) -> MailboxCall
        decreases values.len(),
    {
        if values.len() == 0 {
            self
        } else {
            self.spec_step(word1, values[0]).0.run(word1, values.drop_first())
        }
    }

    /// Advance the exchange with the word just read. An answer that is not
    /// the echo of this exchange's message belongs to another request: it is
    /// dropped and polling goes on.
    pub fn step(&mut self, mbox: &MailBox, value: u32) -> (a: MailboxAction)
        ensures
            (*final(self), a) == old(self).spec_step(mbox@[1], value),
    {
        let message = self.message;
        match self.phase {
            CallPhase::Sending => {
                if value & MBOX_FULL != 0 {
                    MailboxAction::Wait
                } else {
                    self.phase = CallPhase::Awaiting;
                    MailboxAction::Send(message)
                }
            },
            CallPhase::Awaiting => {
                if value & MBOX_EMPTY != 0 {
                    MailboxAction::Wait
                } else {
                    self.phase = CallPhase::Receiving;
                    MailboxAction::Receive
                }
            },
            CallPhase::Receiving => {
                if value == message {
                    let accepted = mbox.mbox[1] == MBOX_RESPONSE;
                    self.phase = CallPhase::Done { accepted };
                    MailboxAction::Complete(accepted)
                } else {
                    self.phase = CallPhase::Awaiting;
                    MailboxAction::ReadStatus
                }
            },
            CallPhase::Done { accepted } => MailboxAction::Complete(accepted),
        }
    }

    /// Whether the exchange is over.
    pub fn is_done(&self) -> (r: bool)
        ensures
            r == self.phase is Done,
    {
        match self.phase {
            CallPhase::Done { .. } => true,
            _ => false,
        }
    }
}

/// An exchange that has not completed never completes while no word read
/// back equals its message, however many words come: the caller keeps
/// polling, and no answer meant for another request is taken for its own.
pub proof fn lemma_unmatched_echo_never_completes(c: MailboxCall, word1: u32, values: Seq<u32>)
    requires
        !(c.phase is Done),
        forall|i: int| 0 <= i < values.len() ==> values[i] != c.message,
    ensures
        !(c.run(word1, values).phase is Done),
        c.run(word1, values).message == c.message,
    decreases values.len(),
{
    if values.len() > 0 {
        let next = c.spec_step(word1, values[0]).0;
        assert forall|i: int| 0 <= i < values.drop_first().len() implies values.drop_first()[i]
            != next.message by {
            assert(values.drop_first()[i] == values[i + 1]);
        }
        lemma_unmatched_echo_never_completes(next, word1, values.drop_first());
    }
}

/// An exchange reports the response code of the buffer as it stands when
/// the echo arrives: it completes `accepted` exactly when word 1 of the
/// buffer is `MBOX_RESPONSE`. Starting and stepping an exchange only borrow
/// the buffer, so a second call made without `clear` hands the GPU the same
/// words the first one left there.
pub proof fn lemma_outcome_reads_buffer(c: MailboxCall, word1: u32, values: Seq<u32>)
    requires
        !(c.phase is Done),
    ensures
        c.run(word1, values).phase is Done ==> c.run(word1, values).phase == (CallPhase::Done {
            accepted: word1 == MBOX_RESPONSE,
        }),
    decreases values.len(),
{
    if values.len() > 0 {
        let next = c.spec_step(word1, values[0]).0;
        if next.phase is Done {
            lemma_done_stays(next, word1, values.drop_first());
        } else {
            lemma_outcome_reads_buffer(next, word1, values.drop_first());
        }
    }
}

/// A completed exchange stays as it is.
proof fn lemma_done_stays(c: MailboxCall, word1: u32, values: Seq<u32>)
    requires
        c.phase is Done,
    ensures
        c.run(word1, values) == c,
    decreases values.len(),
{
    if values.len() > 0 {
        lemma_done_stays(c.spec_step(word1, values[0]).0, word1, values.drop_first());
    }
}

} // verus!
