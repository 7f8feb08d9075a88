//! Boot-loader device bring-up: register write-enable masks for the RK3588 and the
//! bounded-poll state machines of the UART modem, display and touch drivers. The state
//! machines decide; the caller performs the port accesses they ask for.
use vstd::prelude::*;

verus! {

/// The value for a masked RK3588 register write: the mask in the high half, the masked
/// value in the low half.
pub open spec fn masked_write(mask: u16, val: u16) -> u32 {
    ((mask as u32) << 16u32) | ((val & mask) as u32)
}

pub fn write_enable_mask(mask: u16, val: u16) -> (r: u32)
    ensures
        r == masked_write(mask, val),
{
    ((mask as u32) << 16u32) | ((val & mask) as u32)
}

pub fn high_word_mask(mask: u16, val: u16) -> (r: u32)
    ensures
        r == masked_write(mask, val),
{
    write_enable_mask(mask, val)
}

/// The masked write that sets bit `bit` to `val`.
pub fn write_enable_bit(bit: u8, val: bool) -> (r: u32)
    requires
        bit < 16,
    ensures
        r == masked_write((1u16 << bit) as u16, if val { (1u16 << bit) as u16 } else { 0u16 }),
{
    let mask: u16 = 1u16 << bit;
    let val_bits: u16 = if val { mask } else { 0 };
    write_enable_mask(mask, val_bits)
}

/// Where a driver's bring-up stands.
#[derive(Copy, Clone, Debug, PartialEq, Eq, Structural)]
pub enum FsmState {
    Init,
    Polling,
    Ready,
    Error,
}

/// The UART registers of the modem.
#[derive(Copy, Clone, Debug)]
pub struct UartRegs {
    pub rbr_thr_dll: u32,
    pub ier_dlh: u32,
    pub fcr: u32,
    pub lcr: u32,
    pub lsr: u32,
}

/// The VOP2 display controller registers.
#[derive(Copy, Clone, Debug)]
pub struct Vop2Regs {
    pub sys_ctrl: u32,
    pub sys_status: u32,
    pub bg_color: u32,
    pub dsp_ctrl: u32,
}

/// The I2C registers of the touch controller.
#[derive(Copy, Clone, Debug)]
pub struct I2cRegs {
    pub i2c_con: u32,
    pub i2c_txdata: u32,
    pub i2c_rxdata: u32,
    pub i2c_sr: u32,
}

/// What a driver asks of the caller next.
#[derive(Copy, Clone, Debug, PartialEq, Eq, Structural)]
pub enum PortAction {
    /// Read the status register again and report it.
    Poll,
    /// Write this byte to the data port.
    Write(u8),
    /// Write this cell to the text screen.
    WriteCell(u16),
    /// Read the data port and report it.
    ReadData,
    /// Bring-up is over.
    Finished(FsmState),
}

pub const UART_POLL_LIMIT: u32 = 100;
pub const GUI_POLL_LIMIT: u32 = 100;
pub const TOUCH_POLL_LIMIT: u32 = 100000;

/// The modem on the UART: it sends `A` then `T`, each once the line status shows the
/// transmitter empty, polling at most a hundred times for each.
pub struct AlveoDriver {
    pub state: FsmState,
    pub sent: u8,
    pub polls: u32,
}

impl AlveoDriver {
    pub fn new() -> (d: Self)
        ensures
            d.state == FsmState::Init,
            d.sent == 0,
            d.polls == 0,
    {
        AlveoDriver { state: FsmState::Init, sent: 0, polls: 0 }
    }

    /// Starts bring-up: the first line status is wanted.
    pub fn start(&mut self) -> (a: PortAction)
        ensures
            final(self).state == FsmState::Polling && final(self).sent == 0 && final(self).polls == 0,
            a == PortAction::Poll,
    {
        self.state = FsmState::Polling;
        self.sent = 0;
        self.polls = 0;
        PortAction::Poll
    }

    /// Takes a line status reading.
    pub fn on_line_status(&mut self, status: u8) -> (a: PortAction)
        requires
            old(self).state == FsmState::Polling,
            old(self).sent < 2,
            old(self).polls < UART_POLL_LIMIT,
        ensures
            status & 0x20 != 0 && old(self).sent == 0 ==> a == PortAction::Write(0x41) && final(self).sent == 1
                && final(self).polls == 0 && final(self).state == FsmState::Polling,
            status & 0x20 != 0 && old(self).sent == 1 ==> a == PortAction::Write(0x54) && final(self).sent == 2
                && final(self).state == FsmState::Ready,
            status & 0x20 == 0 && old(self).polls + 1 >= UART_POLL_LIMIT ==> a == PortAction::Finished(
                FsmState::Error,
            ) && final(self).state == FsmState::Error,
            status & 0x20 == 0 && old(self).polls + 1 < UART_POLL_LIMIT ==> a == PortAction::Poll && final(self).polls
                == old(self).polls + 1 && final(self).state == FsmState::Polling && final(self).sent == old(self).sent,
    {
        if status & 0x20 != 0 {
            if self.sent == 0 {
                self.sent = 1;
                self.polls = 0;
                PortAction::Write(0x41)
            } else {
                self.sent = 2;
                self.state = FsmState::Ready;
                PortAction::Write(0x54)
            }
        } else {
            self.polls = self.polls + 1;
            if self.polls >= UART_POLL_LIMIT {
                self.state = FsmState::Error;
                PortAction::Finished(FsmState::Error)
            } else {
                PortAction::Poll
            }
        }
    }
}

/// The display: once the input status shows vertical retrace (within a hundred polls),
/// a green `G` goes into the first text cell.
pub struct GuiDriver {
    pub state: FsmState,
    pub polls: u32,
}

impl GuiDriver {
    pub fn new() -> (d: Self)
        ensures
            d.state == FsmState::Init,
            d.polls == 0,
    {
        GuiDriver { state: FsmState::Init, polls: 0 }
    }

    pub fn start(&mut self) -> (a: PortAction)
        ensures
            final(self).state == FsmState::Polling && final(self).polls == 0,
            a == PortAction::Poll,
    {
        self.state = FsmState::Polling;
        self.polls = 0;
        PortAction::Poll
    }

    /// Takes an input status reading.
    pub fn on_input_status(&mut self, status: u8) -> (a: PortAction)
        requires
            old(self).state == FsmState::Polling,
            old(self).polls < GUI_POLL_LIMIT,
        ensures
            status & 0x08 != 0 ==> a == PortAction::WriteCell(0x0247) && final(self).state == FsmState::Ready,
            status & 0x08 == 0 && old(self).polls + 1 >= GUI_POLL_LIMIT ==> a == PortAction::Finished(FsmState::Error)
                && final(self).state == FsmState::Error,
            status & 0x08 == 0 && old(self).polls + 1 < GUI_POLL_LIMIT ==> a == PortAction::Poll && final(self).polls
                == old(self).polls + 1 && final(self).state == FsmState::Polling,
    {
        if status & 0x08 != 0 {
            self.state = FsmState::Ready;
            PortAction::WriteCell(0x0247)
        } else {
            self.polls = self.polls + 1;
            if self.polls >= GUI_POLL_LIMIT {
                self.state = FsmState::Error;
                PortAction::Finished(FsmState::Error)
            } else {
                PortAction::Poll
            }
        }
    }
}

/// The touch controller behind the keyboard controller: wait for the input buffer to
/// empty, send the self-test command, wait for the output buffer, and expect `0x55`.
pub struct TouchDriver {
    pub state: FsmState,
    pub command_sent: bool,
    pub polls: u32,
}

impl TouchDriver {
    pub fn new() -> (d: Self)
        ensures
            d.state == FsmState::Init,
            !d.command_sent,
            d.polls == 0,
    {
        TouchDriver { state: FsmState::Init, command_sent: false, polls: 0 }
    }

    pub fn start(&mut self) -> (a: PortAction)
        ensures
            final(self).state == FsmState::Polling && !final(self).command_sent && final(self).polls == 0,
            a == PortAction::Poll,
    {
        self.state = FsmState::Polling;
        self.command_sent = false;
        self.polls = 0;
        PortAction::Poll
    }

    /// Takes a controller status reading.
    pub fn on_status(&mut self, status: u8) -> (a: PortAction)
        requires
            old(self).state == FsmState::Polling,
            old(self).polls < TOUCH_POLL_LIMIT,
        ensures
            final(self).state == FsmState::Polling || final(self).state == FsmState::Error,
            !old(self).command_sent && status & 0x02 == 0 ==> a == PortAction::Write(0xAA) && final(self).command_sent
                && final(self).polls == 0,
            old(self).command_sent && status & 0x01 != 0 ==> a == PortAction::ReadData && final(self).command_sent
                && final(self).state == FsmState::Polling,
            (if old(self).command_sent { status & 0x01 == 0 } else { status & 0x02 != 0 }) ==> if old(self).polls + 1
                >= TOUCH_POLL_LIMIT {
                a == PortAction::Finished(FsmState::Error) && final(self).state == FsmState::Error
            } else {
                a == PortAction::Poll && final(self).polls == old(self).polls + 1 && final(self).command_sent == old(self).command_sent
            },
    {
        let ready = if self.command_sent { status & 0x01 != 0 } else { status & 0x02 == 0 };
        if ready {
            if !self.command_sent {
                self.command_sent = true;
                self.polls = 0;
                PortAction::Write(0xAA)
            } else {
                PortAction::ReadData
            }
        } else {
            self.polls = self.polls + 1;
            if self.polls >= TOUCH_POLL_LIMIT {
                self.state = FsmState::Error;
                PortAction::Finished(FsmState::Error)
            } else {
                PortAction::Poll
            }
        }
    }

    /// Takes the controller's answer to the self-test.
    pub fn on_response(&mut self, response: u8) -> (a: PortAction)
        requires
            old(self).state == FsmState::Polling,
            old(self).command_sent,
        ensures
            response == 0x55 ==> a == PortAction::Finished(FsmState::Ready) && final(self).state == FsmState::Ready,
            response != 0x55 ==> a == PortAction::Finished(FsmState::Error) && final(self).state == FsmState::Error,
    {
        if response != 0x55 {
            self.state = FsmState::Error;
            PortAction::Finished(FsmState::Error)
        } else {
            self.state = FsmState::Ready;
            PortAction::Finished(FsmState::Ready)
        }
    }
}

} // verus!
