//! The PC speaker on channel 2 of the interval timer: the divisor for a frequency, the
//! enable bits, and the three-tone alarm. Port I/O and the delays are the caller's.
use vstd::prelude::*;

verus! {

/// The interval timer's input clock in hertz.
pub const PIT_FREQUENCY: u32 = 1_193_180;
/// Channel 2, low byte then high byte, square wave.
pub const PIT_CHANNEL2_SQUARE_WAVE: u8 = 0xB6;
pub const PIT_COMMAND_PORT: u16 = 0x43;
pub const PIT_CHANNEL2_PORT: u16 = 0x42;
pub const SPEAKER_PORT: u16 = 0x61;
/// How long each tone of the alarm lasts, in milliseconds.
pub const ALARM_TONE_MS: u32 = 80;

/// The divisor for `freq` hertz as the low and high bytes sent to channel 2; nothing is
/// played for 0 Hz.
pub fn play_tone(freq: u32) -> (r: Option<(u8, u8)>)
    ensures
        freq == 0 ==> r is None,
        freq != 0 ==> r == Some((((PIT_FREQUENCY / freq) & 0xFF) as u8, (((PIT_FREQUENCY / freq) >> 8u32) & 0xFF) as u8)),
{
    if freq == 0 {
        return None;
    }
    let divisor: u32 = PIT_FREQUENCY / freq;
    Some(((divisor & 0xFF) as u8, ((divisor >> 8u32) & 0xFF) as u8))
}

/// The speaker port value with its two enable bits set, when they are not set yet.
pub fn speaker_gate_on(port: u8) -> (r: Option<u8>)
    ensures
        port != port | 3 ==> r == Some(port | 3),
        port == port | 3 ==> r is None,
{
    if port != port | 3 {
        Some(port | 3)
    } else {
        None
    }
}

/// The speaker port value with its two enable bits cleared.
pub fn stop_tone(port: u8) -> (r: u8)
    ensures
        r == port & 0xFC,
{
    port & 0xFC
}

/// The alarm's tones, played in turn for 80 ms each, over and over.
pub fn play_md80_altitude_warning() -> (r: [u32; 3])
    ensures
        r@ == seq![250u32, 500, 626],
{
    let tones: [u32; 3] = [250, 500, 626];
    assert(tones@ =~= seq![250u32, 500, 626]);
    tones
}

} // verus!
