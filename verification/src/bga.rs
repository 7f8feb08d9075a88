//! The Bochs graphics adapter: recognising it by its id, its capabilities with defaults
//! for what it leaves unset, and the register writes that set a mode. Port I/O is done by
//! the caller.
use vstd::prelude::*;

verus! {

pub const VBE_DISPI_IOPORT_INDEX: u16 = 0x01CE;
pub const VBE_DISPI_IOPORT_DATA: u16 = 0x01CF;

pub const VBE_DISPI_INDEX_ID: u16 = 0x0;
pub const VBE_DISPI_INDEX_XRES: u16 = 0x1;
pub const VBE_DISPI_INDEX_YRES: u16 = 0x2;
pub const VBE_DISPI_INDEX_BPP: u16 = 0x3;
pub const VBE_DISPI_INDEX_ENABLE: u16 = 0x4;
pub const VBE_DISPI_INDEX_BANK: u16 = 0x5;
pub const VBE_DISPI_INDEX_VIRT_WIDTH: u16 = 0x6;
pub const VBE_DISPI_INDEX_VIRT_HEIGHT: u16 = 0x7;
pub const VBE_DISPI_INDEX_X_OFFSET: u16 = 0x8;
pub const VBE_DISPI_INDEX_Y_OFFSET: u16 = 0x9;

pub const VBE_DISPI_ID0: u16 = 0xB0C0;
pub const VBE_DISPI_ID1: u16 = 0xB0C1;
pub const VBE_DISPI_ID2: u16 = 0xB0C2;
pub const VBE_DISPI_ID3: u16 = 0xB0C3;
pub const VBE_DISPI_ID4: u16 = 0xB0C4;
pub const VBE_DISPI_ID5: u16 = 0xB0C5;

pub const VBE_DISPI_DISABLED: u16 = 0x00;
pub const VBE_DISPI_ENABLED: u16 = 0x01;
pub const VBE_DISPI_GETCAPS: u16 = 0x02;
pub const VBE_DISPI_8BIT_DAC: u16 = 0x20;
pub const VBE_DISPI_LFB_ENABLED: u16 = 0x40;
pub const VBE_DISPI_NOCLEARMEM: u16 = 0x80;

pub const DEFAULT_MAX_WIDTH: u16 = 1920;
pub const DEFAULT_MAX_HEIGHT: u16 = 1080;
pub const DEFAULT_MAX_BPP: u16 = 32;

#[derive(Copy, Clone, Debug, PartialEq, Eq, Structural)]
pub struct BgaCaps {
    pub max_width: u16,
    pub max_height: u16,
    pub max_bpp: u16,
}

#[derive(Copy, Clone, Debug, PartialEq, Eq, Structural)]
pub struct BgaDisplayMode {
    pub width: u32,
    pub height: u32,
    pub bpp: u16,
    pub pitch: u32,
}

/// The adapter is there when, after the newest id was written, the id register reads back
/// one of the known ids.
pub fn is_available(id: u16) -> (r: bool)
    ensures
        r == (VBE_DISPI_ID0 <= id && id <= VBE_DISPI_ID5),
{
    id >= VBE_DISPI_ID0 && id <= VBE_DISPI_ID5
}

/// The capabilities read in capability mode; a register that reads 0 stands for 1920 by
/// 1080 at 32 bits.
pub fn probe_caps(max_width: u16, max_height: u16, max_bpp: u16) -> (c: BgaCaps)
    ensures
        c.max_width == (if max_width == 0 { DEFAULT_MAX_WIDTH } else { max_width }),
        c.max_height == (if max_height == 0 { DEFAULT_MAX_HEIGHT } else { max_height }),
        c.max_bpp == (if max_bpp == 0 { DEFAULT_MAX_BPP } else { max_bpp }),
{
    BgaCaps {
        max_width: if max_width == 0 { DEFAULT_MAX_WIDTH } else { max_width },
        max_height: if max_height == 0 { DEFAULT_MAX_HEIGHT } else { max_height },
        max_bpp: if max_bpp == 0 { DEFAULT_MAX_BPP } else { max_bpp },
    }
}

/// Setting a mode: the adapter off, the resolution (cut to 16 bits) and depth written, then
/// on with the linear framebuffer. The line pitch is the width times whole bytes per pixel.
pub fn set_mode(width: u32, height: u32, bpp: u16) -> (r: (Vec<(u16, u16)>, BgaDisplayMode))
    requires
        width * ((bpp / 8) as u32) <= u32::MAX,
    ensures
        r.0@ == seq![
            (VBE_DISPI_INDEX_ENABLE, VBE_DISPI_DISABLED),
            (VBE_DISPI_INDEX_XRES, width as u16),
            (VBE_DISPI_INDEX_YRES, height as u16),
            (VBE_DISPI_INDEX_BPP, bpp),
            (VBE_DISPI_INDEX_ENABLE, VBE_DISPI_ENABLED | VBE_DISPI_LFB_ENABLED),
        ],
        r.1 == (BgaDisplayMode { width, height, bpp, pitch: (width * ((bpp / 8) as u32)) as u32 }),
{
    let writes = vec![
        (VBE_DISPI_INDEX_ENABLE, VBE_DISPI_DISABLED),
        (VBE_DISPI_INDEX_XRES, width as u16),
        (VBE_DISPI_INDEX_YRES, height as u16),
        (VBE_DISPI_INDEX_BPP, bpp),
        (VBE_DISPI_INDEX_ENABLE, VBE_DISPI_ENABLED | VBE_DISPI_LFB_ENABLED),
    ];
    let pitch = width * (bpp as u32 / 8);
    (writes, BgaDisplayMode { width, height, bpp, pitch })
}

/// The mode the kernel asks for: 1920x1080 at 32 bits per pixel, or less where the adapter
/// reports a lower maximum.
pub fn target_mode(caps: &BgaCaps) -> (r: (u32, u32, u16))
    ensures
        r.0 == (if caps.max_width < 1920 { caps.max_width as u32 } else { 1920 }),
        r.1 == (if caps.max_height < 1080 { caps.max_height as u32 } else { 1080 }),
        r.2 == (if caps.max_bpp < 32 { caps.max_bpp } else { 32 }),
{
    let w: u32 = if (caps.max_width as u32) < 1920 { caps.max_width as u32 } else { 1920 };
    let h: u32 = if (caps.max_height as u32) < 1080 { caps.max_height as u32 } else { 1080 };
    let b: u16 = if caps.max_bpp < 32 { caps.max_bpp } else { 32 };
    (w, h, b)
}

/// The colour channel layout of a framebuffer: each channel's mask size and shift.
#[derive(Copy, Clone, Debug, PartialEq, Eq, Structural)]
pub struct ColorMasks {
    pub red_size: u8,
    pub red_shift: u8,
    pub green_size: u8,
    pub green_shift: u8,
    pub blue_size: u8,
    pub blue_shift: u8,
}

/// The layout the kernel uses after a mode change: where the boot framebuffer reports a
/// channel of size zero, eight bits at the usual place (red at 16, green at 8); the blue
/// size likewise defaults to eight, and its shift is kept as reported.
pub fn mode_color_masks(boot: ColorMasks) -> (m: ColorMasks)
    ensures
        m.red_size == (if boot.red_size == 0 { 8 } else { boot.red_size }),
        m.red_shift == (if boot.red_size == 0 { 16 } else { boot.red_shift }),
        m.green_size == (if boot.green_size == 0 { 8 } else { boot.green_size }),
        m.green_shift == (if boot.green_size == 0 { 8 } else { boot.green_shift }),
        m.blue_size == (if boot.blue_size == 0 { 8 } else { boot.blue_size }),
        m.blue_shift == boot.blue_shift,
{
    ColorMasks {
        red_size: if boot.red_size == 0 { 8 } else { boot.red_size },
        red_shift: if boot.red_size == 0 { 16 } else { boot.red_shift },
        green_size: if boot.green_size == 0 { 8 } else { boot.green_size },
        green_shift: if boot.green_size == 0 { 8 } else { boot.green_shift },
        blue_size: if boot.blue_size == 0 { 8 } else { boot.blue_size },
        blue_shift: boot.blue_shift,
    }
}

} // verus!
