//! The COM1 serial port: its set-up writes and the bytes a string goes out as, each line
//! feed preceded by a carriage return. The port itself is driven by the caller.
use vstd::prelude::*;

verus! {

pub const COM1_PORT: u16 = 0x3F8;
pub const LINE_STATUS_OFFSET: u16 = 5;
pub const TRANSMIT_HOLDING_REGISTER_EMPTY: u8 = 0x20;

/// Interrupts off, 38400 baud, 8N1, FIFO on, modem control set: each write as its port
/// offset and value.
pub fn init() -> (r: Vec<(u16, u8)>)
    ensures
        r@ == seq![(1u16, 0x00u8), (3, 0x80), (0, 0x03), (1, 0x00), (3, 0x03), (2, 0xC7), (4, 0x0B)],
{
    vec![(1u16, 0x00u8), (3, 0x80), (0, 0x03), (1, 0x00), (3, 0x03), (2, 0xC7), (4, 0x0B)]
}

/// The bytes that go out for `text`.
pub open spec fn serial_bytes(text: Seq<u8>) -> Seq<u8>
    decreases text.len(),
{
    if text.len() == 0 {
        Seq::empty()
    } else {
        let b = text.last();
        serial_bytes(text.drop_last()) + if b == 10u8 { seq![13u8, 10u8] } else { seq![b] }
    }
}

pub fn write_str(text: &[u8]) -> (r: Vec<u8>)
    ensures
        r@ == serial_bytes(text@),
{
    let mut out: Vec<u8> = Vec::new();
    let mut i: usize = 0;
    while i < text.len()
        invariant
            i <= text@.len(),
            out@ == serial_bytes(text@.take(i as int)),
        decreases text.len() - i,
    {
        let b = text[i];
        if b == 10u8 {
            out.push(13u8);
        }
        out.push(b);
        proof {
            assert(text@.take(i + 1).drop_last() =~= text@.take(i as int));
        }
        i = i + 1;
        assert(out@ =~= serial_bytes(text@.take(i as int)));
    }
    assert(text@.take(text@.len() as int) =~= text@);
    out
}

/// The transmitter can take a byte.
pub fn transmit_ready(line_status: u8) -> (r: bool)
    ensures
        r == (line_status & TRANSMIT_HOLDING_REGISTER_EMPTY != 0),
{
    line_status & TRANSMIT_HOLDING_REGISTER_EMPTY != 0
}

} // verus!
