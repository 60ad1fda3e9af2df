//! The PL011 UART: its clock-rate request over the mailbox, the pin function
//! it needs, and the words a string turns into on the wire.
use vstd::prelude::*;
use vstd::string::StringSliceAdditionalSpecFns;
use crate::mbox::{MailBox, MBOX_REQUEST, MBOX_TAG_LAST, MBOX_TAG_SETCLKRATE, MMIO_BASE};

verus! {

pub const UART_DR: u32 = MMIO_BASE + 0x0020_1000;
pub const UART_FR: u32 = MMIO_BASE + 0x0020_1018;
pub const UART_IBRD: u32 = MMIO_BASE + 0x0020_1024;
pub const UART_FBRD: u32 = MMIO_BASE + 0x0020_1028;
pub const UART_LCRH: u32 = MMIO_BASE + 0x0020_102C;
pub const UART_CR: u32 = MMIO_BASE + 0x0020_1030;
pub const UART_IMSC: u32 = MMIO_BASE + 0x0020_1038;
pub const UART_ICR: u32 = MMIO_BASE + 0x0020_1044;

/// GPIO function select for pins 10 to 19.
pub const GPFSEL1: u32 = MMIO_BASE + 0x0020_0004;
/// GPIO pull-up/down control.
pub const GPPUD: u32 = MMIO_BASE + 0x0020_0094;
/// GPIO pull-up/down clock for pins 0 to 31.
pub const GPPUDCLK0: u32 = MMIO_BASE + 0x0020_0098;

/// Flag register bit: the transmit queue is full.
pub const UART_FR_TXFF: u32 = 0x20;
/// Flag register bit: the receive queue is empty.
pub const UART_FR_RXFE: u32 = 0x10;

/// Clock id of the UART in the set-clock-rate tag.
pub const UART_CLOCK_ID: u32 = 2;
/// Rate asked for the UART clock, in Hz.
pub const UART_CLOCK_HZ: u32 = 4_000_000;

/// The PL011 UART, by its data and flag register addresses.
#[derive(Clone, Copy, Debug, PartialEq, Eq)]
pub struct UART {
    pub mu_io_addr: u32,
    pub mu_lsr_addr: u32,
}

/// The words at the head of the buffer that ask for the UART clock rate.
pub open spec fn clock_request() -> Seq<u32> {
    seq![36u32, MBOX_REQUEST, MBOX_TAG_SETCLKRATE, 12, 8, UART_CLOCK_ID, UART_CLOCK_HZ, 0, MBOX_TAG_LAST]
}

/// The prompt sent after a carriage return: `READY:> `.
pub open spec fn prompt() -> Seq<u32> {
    seq![82u32, 69, 65, 68, 89, 58, 62, 32]
}

/// The words sent for one byte: a newline goes out as newline and carriage
/// return; a carriage return as the same pair and then the prompt.
pub open spec fn tx_byte(b: u8) -> Seq<u32> {
    if b == 10 {
        seq![10u32, 13]
    } else if b == 13 {
        seq![10u32, 13] + prompt()
    } else {
        seq![b as u32]
    }
}

/// The words sent for `bytes`, in order.
pub open spec fn tx_words(bytes: Seq<u8>) -> Seq<u32>
    decreases bytes.len(),
{
    if bytes.len() == 0 {
        seq![]
    } else {
        tx_words(bytes.drop_last()) + tx_byte(bytes.last())
    }
}

/// Function-select value for pins 14 and 15 in alternate function 0 (the
/// UART's transmit and receive lines), from the register's current value:
/// the two pins' 3-bit fields are cleared and set to 0b100, every other pin
/// keeps its setting.
pub fn uart_pin_function(fsel1: u32) -> (r: u32)
    ensures
        r == (fsel1 & !0x3F000u32) | 0x24000,
{
    let keep: u32 = (7 << 12) | (7 << 15);
    let alt0: u32 = (4 << 12) | (4 << 15);
    assert(keep == 0x3F000 && alt0 == 0x24000) by (bit_vector)
        requires
            keep == (7u32 << 12u32) | (7u32 << 15u32),
            alt0 == (4u32 << 12u32) | (4u32 << 15u32),
    ;
    (fsel1 & !keep) | alt0
}

impl UART {
    pub fn new() -> (r: UART)
        ensures
            r.mu_io_addr == UART_DR,
            r.mu_lsr_addr == UART_FR,
    {
        UART { mu_io_addr: UART_DR, mu_lsr_addr: UART_FR }
    }

    /// Write at the head of `mbox` the request that sets the UART clock.
    /// The words after it are left as they were.
    pub fn request_clock_rate(&self, mbox: &mut MailBox)
        ensures
            final(mbox)@ == clock_request() + old(mbox)@.subrange(9, 36),
    {
        mbox.mbox[0] = 9 * 4;
        mbox.mbox[1] = MBOX_REQUEST;
        mbox.mbox[2] = MBOX_TAG_SETCLKRATE;
        mbox.mbox[3] = 12;
        mbox.mbox[4] = 8;
        mbox.mbox[5] = UART_CLOCK_ID;
        mbox.mbox[6] = UART_CLOCK_HZ;
        mbox.mbox[7] = 0;
        mbox.mbox[8] = MBOX_TAG_LAST;
        assert(mbox@ =~= clock_request() + old(mbox)@.subrange(9, 36));
    }

    /// Append to `out` the words to send, one after another, for `data`.
    pub fn write(&self, data: &str, out: &mut Vec<u32>)
        ensures
            final(out)@ == old(out)@ + tx_words(data.spec_bytes()),
    {
        let bytes = data.as_bytes();
        let mut i: usize = 0;
        while i < bytes.len()
            invariant
                bytes@ == data.spec_bytes(),
                i <= bytes@.len(),
                out@ == old(out)@ + tx_words(bytes@.subrange(0, i as int)),
            decreases bytes@.len() - i,
        {
            let b = bytes[i];
            let ghost pre = out@;
            if b == 10 {
                out.push(10);
                out.push(13);
            } else if b == 13 {
                out.push(10);
                out.push(13);
                out.push(82);
                out.push(69);
                out.push(65);
                out.push(68);
                out.push(89);
                out.push(58);
                out.push(62);
                out.push(32);
            } else {
                out.push(b as u32);
            }
            proof {
                let t = bytes@.subrange(0, i as int + 1);
                assert(t.drop_last() =~= bytes@.subrange(0, i as int));
                assert(t.last() == b);
                assert(out@ =~= pre + tx_byte(b));
            }
            i = i + 1;
        }
        assert(bytes@.subrange(0, bytes@.len() as int) =~= bytes@);
    }
}

impl Default for UART {
    fn default() -> (r: UART)
        ensures
            r.mu_io_addr == UART_DR,
            r.mu_lsr_addr == UART_FR,
    {
        UART::new()
    }
}

} // verus!
