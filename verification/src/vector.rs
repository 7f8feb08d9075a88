//! Vector unit capabilities: which SIMD features the CPU and the OS make usable, and how
//! vector state is saved across context switches.
use vstd::prelude::*;
use crate::text::{dec_text, hex_text, push_hex, push_str, yes_no};

verus! {

/// The feature bits of `VectorCaps::base_bits` and `VectorCaps::ext_bits`.
pub struct VectorFeatureBits;

pub const FEATURE_AVX: u64 = 1;
pub const FEATURE_AVX2: u64 = 2;
pub const FEATURE_AVX512F: u64 = 4;
pub const FEATURE_NEON: u64 = 8;
pub const FEATURE_ALTIVEC: u64 = 16;
pub const FEATURE_VSX: u64 = 32;
pub const FEATURE_AVX512BW: u64 = 1;
pub const FEATURE_AVX512DQ: u64 = 2;
pub const FEATURE_AVX512VL: u64 = 4;

pub const XCR0_XMM: u64 = 2;
pub const XCR0_YMM: u64 = 4;
pub const XCR0_OPMASK: u64 = 32;
pub const XCR0_ZMM_HI256: u64 = 64;
pub const XCR0_HI16_ZMM: u64 = 128;
pub const XCR0_YMM_STATE: u64 = 6;
pub const XCR0_AVX512_STATE: u64 = 230;

#[derive(Copy, Clone, Debug, PartialEq, Eq, Structural)]
pub enum VectorContextMode {
    ScalarOnly,
    Fxsave,
    Xsave,
    Aarch64FpSimd,
    Ppc64Vsx,
}

impl VectorContextMode {
    pub fn as_str(self) -> (s: &'static str)
        ensures
            self == VectorContextMode::ScalarOnly ==> s@ == "scalar-only"@,
            self == VectorContextMode::Fxsave ==> s@ == "fxsave"@,
            self == VectorContextMode::Xsave ==> s@ == "xsave"@,
            self == VectorContextMode::Aarch64FpSimd ==> s@ == "aarch64-fpsimd"@,
            self == VectorContextMode::Ppc64Vsx ==> s@ == "ppc64-vsx"@,
    {
        match self {
            VectorContextMode::ScalarOnly => "scalar-only",
            VectorContextMode::Fxsave => "fxsave",
            VectorContextMode::Xsave => "xsave",
            VectorContextMode::Aarch64FpSimd => "aarch64-fpsimd",
            VectorContextMode::Ppc64Vsx => "ppc64-vsx",
        }
    }
}

#[derive(Copy, Clone, Debug, PartialEq, Eq, Structural)]
pub enum VectorContextPolicy {
    Eager,
    ScalarFallback,
}

impl VectorContextPolicy {
    pub fn as_str(self) -> (s: &'static str)
        ensures
            self == VectorContextPolicy::Eager ==> s@ == "eager"@,
            self == VectorContextPolicy::ScalarFallback ==> s@ == "scalar-fallback"@,
    {
        match self {
            VectorContextPolicy::Eager => "eager",
            VectorContextPolicy::ScalarFallback => "scalar-fallback",
        }
    }
}

#[derive(Copy, Clone, Debug, PartialEq, Eq, Structural)]
pub struct VectorCaps {
    pub initialized: bool,
    pub base_bits: u64,
    pub ext_bits: u64,
    pub xsave_mask: u64,
    pub context_mode: VectorContextMode,
    pub policy: VectorContextPolicy,
}

impl VectorCaps {
    pub open spec fn empty_spec() -> VectorCaps {
        VectorCaps {
            initialized: false,
            base_bits: 0,
            ext_bits: 0,
            xsave_mask: 0,
            context_mode: VectorContextMode::ScalarOnly,
            policy: VectorContextPolicy::ScalarFallback,
        }
    }

    pub fn empty() -> (c: Self)
        ensures
            c == VectorCaps::empty_spec(),
    {
        VectorCaps {
            initialized: false,
            base_bits: 0,
            ext_bits: 0,
            xsave_mask: 0,
            context_mode: VectorContextMode::ScalarOnly,
            policy: VectorContextPolicy::ScalarFallback,
        }
    }

    pub fn has_base(self, bit: u64) -> (b: bool)
        ensures
            b == (self.base_bits & bit != 0),
    {
        self.base_bits & bit != 0
    }

    pub fn has_ext(self, bit: u64) -> (b: bool)
        ensures
            b == (self.ext_bits & bit != 0),
    {
        self.ext_bits & bit != 0
    }
}

pub open spec fn bit32(x: u32, b: u32) -> bool {
    x & (1u32 << b) != 0
}

/// The capabilities that CPUID leaf 1, leaf 7 and XCR0 describe on x86-64.
pub open spec fn x86_caps(ecx: u32, edx: u32, ebx7: u32, xcr0: u64) -> VectorCaps {
    let xsave = bit32(ecx, 26);
    let osxsave = bit32(ecx, 27);
    let avx_hw = bit32(ecx, 28);
    let fxsave = bit32(edx, 24);
    let ymm = xcr0 & XCR0_YMM_STATE == XCR0_YMM_STATE;
    let avx = xsave && osxsave && avx_hw && ymm;
    let avx2 = avx && bit32(ebx7, 5);
    let zmm = xcr0 & XCR0_AVX512_STATE == XCR0_AVX512_STATE;
    let f = avx && zmm && bit32(ebx7, 16);
    let base = (if avx { FEATURE_AVX } else { 0u64 }) | (if avx2 { FEATURE_AVX2 } else { 0u64 }) | (if f {
        FEATURE_AVX512F
    } else {
        0u64
    });
    let ext = (if f && bit32(ebx7, 30) { FEATURE_AVX512BW } else { 0u64 }) | (if f && bit32(ebx7, 17) {
        FEATURE_AVX512DQ
    } else {
        0u64
    }) | (if f && bit32(ebx7, 31) { FEATURE_AVX512VL } else { 0u64 });
    if xsave && osxsave && ymm {
        VectorCaps {
            initialized: true,
            base_bits: base,
            ext_bits: ext,
            xsave_mask: if zmm { XCR0_AVX512_STATE } else { XCR0_YMM_STATE },
            context_mode: VectorContextMode::Xsave,
            policy: VectorContextPolicy::Eager,
        }
    } else if fxsave {
        VectorCaps {
            initialized: true,
            base_bits: base,
            ext_bits: ext,
            xsave_mask: 0,
            context_mode: VectorContextMode::Fxsave,
            policy: VectorContextPolicy::Eager,
        }
    } else {
        VectorCaps {
            initialized: true,
            base_bits: base,
            ext_bits: ext,
            xsave_mask: 0,
            context_mode: VectorContextMode::ScalarOnly,
            policy: VectorContextPolicy::ScalarFallback,
        }
    }
}

/// Works out the vector capabilities from CPUID leaf 1 (`ecx`, `edx`), leaf 7 (`ebx`) and XCR0.
pub fn decode_x86_caps(leaf1_ecx: u32, leaf1_edx: u32, leaf7_ebx: u32, xcr0: u64) -> (c: VectorCaps)
    ensures
        c == x86_caps(leaf1_ecx, leaf1_edx, leaf7_ebx, xcr0),
{
    let has_xsave_instruction = (leaf1_ecx & (1u32 << 26u32)) != 0;
    let has_osxsave = (leaf1_ecx & (1u32 << 27u32)) != 0;
    let has_avx_hw = (leaf1_ecx & (1u32 << 28u32)) != 0;
    let has_fxsave = (leaf1_edx & (1u32 << 24u32)) != 0;
    let ymm_state_enabled = (xcr0 & XCR0_YMM_STATE) == XCR0_YMM_STATE;
    let avx_usable = has_xsave_instruction && has_osxsave && has_avx_hw && ymm_state_enabled;
    let avx512_state_enabled = (xcr0 & XCR0_AVX512_STATE) == XCR0_AVX512_STATE;
    let avx512f = avx_usable && avx512_state_enabled && (leaf7_ebx & (1u32 << 16u32)) != 0;
    let base_bits: u64 = (if avx_usable { FEATURE_AVX } else { 0u64 }) | (if avx_usable && (leaf7_ebx & (1u32
        << 5u32)) != 0 {
        FEATURE_AVX2
    } else {
        0u64
    }) | (if avx512f { FEATURE_AVX512F } else { 0u64 });
    let ext_bits: u64 = (if avx512f && (leaf7_ebx & (1u32 << 30u32)) != 0 {
        FEATURE_AVX512BW
    } else {
        0u64
    }) | (if avx512f && (leaf7_ebx & (1u32 << 17u32)) != 0 { FEATURE_AVX512DQ } else { 0u64 }) | (if avx512f
        && (leaf7_ebx & (1u32 << 31u32)) != 0 {
        FEATURE_AVX512VL
    } else {
        0u64
    });
    if has_xsave_instruction && has_osxsave && ymm_state_enabled {
        VectorCaps {
            initialized: true,
            base_bits,
            ext_bits,
            xsave_mask: if avx512_state_enabled { XCR0_AVX512_STATE } else { XCR0_YMM_STATE },
            context_mode: VectorContextMode::Xsave,
            policy: VectorContextPolicy::Eager,
        }
    } else if has_fxsave {
        VectorCaps {
            initialized: true,
            base_bits,
            ext_bits,
            xsave_mask: 0,
            context_mode: VectorContextMode::Fxsave,
            policy: VectorContextPolicy::Eager,
        }
    } else {
        VectorCaps {
            initialized: true,
            base_bits,
            ext_bits,
            xsave_mask: 0,
            context_mode: VectorContextMode::ScalarOnly,
            policy: VectorContextPolicy::ScalarFallback,
        }
    }
}

/// How vector state is saved under these capabilities.
pub fn context_mode(caps: &VectorCaps) -> (m: VectorContextMode)
    ensures
        m == caps.context_mode,
{
    caps.context_mode
}

/// The XSAVE component mask in use.
pub fn xsave_mask(caps: &VectorCaps) -> (m: u64)
    ensures
        m == caps.xsave_mask,
{
    caps.xsave_mask
}

pub open spec fn yes_no_text(b: bool) -> Seq<char> {
    if b { "yes"@ } else { "no"@ }
}

/// A line `label value`.
pub open spec fn line(label: Seq<char>, value: Seq<char>) -> Seq<char> {
    label + seq![' '] + value + seq!['\n']
}

pub open spec fn hex18(n: u64) -> Seq<char> {
    seq!['0', 'x'] + hex_text(n as nat, 16)
}

pub open spec fn mode_text(m: VectorContextMode) -> Seq<char> {
    match m {
        VectorContextMode::ScalarOnly => "scalar-only"@,
        VectorContextMode::Fxsave => "fxsave"@,
        VectorContextMode::Xsave => "xsave"@,
        VectorContextMode::Aarch64FpSimd => "aarch64-fpsimd"@,
        VectorContextMode::Ppc64Vsx => "ppc64-vsx"@,
    }
}

pub open spec fn policy_text(p: VectorContextPolicy) -> Seq<char> {
    match p {
        VectorContextPolicy::Eager => "eager"@,
        VectorContextPolicy::ScalarFallback => "scalar-fallback"@,
    }
}

/// The status text for `/proc`: one line per setting and feature.
pub open spec fn proc_status_text(c: VectorCaps) -> Seq<char> {
    line("initialized"@, yes_no_text(c.initialized)) + line("policy"@, policy_text(c.policy)) + line(
        "context_mode"@,
        mode_text(c.context_mode),
    ) + line("base_bits"@, hex18(c.base_bits)) + line("ext_bits"@, hex18(c.ext_bits)) + line(
        "xsave_mask"@,
        hex18(c.xsave_mask),
    ) + line("feature_avx"@, yes_no_text(c.base_bits & FEATURE_AVX != 0)) + line(
        "feature_avx2"@,
        yes_no_text(c.base_bits & FEATURE_AVX2 != 0),
    ) + line("feature_avx512f"@, yes_no_text(c.base_bits & FEATURE_AVX512F != 0)) + line(
        "feature_avx512bw"@,
        yes_no_text(c.ext_bits & FEATURE_AVX512BW != 0),
    ) + line("feature_avx512dq"@, yes_no_text(c.ext_bits & FEATURE_AVX512DQ != 0)) + line(
        "feature_avx512vl"@,
        yes_no_text(c.ext_bits & FEATURE_AVX512VL != 0),
    ) + line("feature_neon"@, yes_no_text(c.base_bits & FEATURE_NEON != 0)) + line(
        "feature_altivec"@,
        yes_no_text(c.base_bits & FEATURE_ALTIVEC != 0),
    ) + line("feature_vsx"@, yes_no_text(c.base_bits & FEATURE_VSX != 0))
}

fn push_line(text: &mut Vec<char>, label: &str, value: &str)
    ensures
        final(text)@ == old(text)@ + line(label@, value@),
{
    push_str(text, label);
    text.push(' ');
    push_str(text, value);
    text.push('\n');
    assert(text@ =~= old(text)@ + line(label@, value@));
}

fn push_hex_line(text: &mut Vec<char>, label: &str, value: u64)
    ensures
        final(text)@ == old(text)@ + line(label@, hex18(value)),
{
    push_str(text, label);
    text.push(' ');
    let ghost mid = text@;
    push_hex(text, value, 16);
    text.push('\n');
    assert(text@ =~= old(text)@ + line(label@, hex18(value)));
}

/// Renders the capabilities for `/proc`.
pub fn render_proc_status(caps: &VectorCaps) -> (text: Vec<char>)
    ensures
        text@ == proc_status_text(*caps),
{
    proof {
        reveal_strlit("yes");
        reveal_strlit("no");
    }
    let c = *caps;
    let mut text: Vec<char> = Vec::new();
    push_line(&mut text, "initialized", yes_no(c.initialized));
    push_line(&mut text, "policy", c.policy.as_str());
    push_line(&mut text, "context_mode", c.context_mode.as_str());
    push_hex_line(&mut text, "base_bits", c.base_bits);
    push_hex_line(&mut text, "ext_bits", c.ext_bits);
    push_hex_line(&mut text, "xsave_mask", c.xsave_mask);
    push_line(&mut text, "feature_avx", yes_no(c.has_base(FEATURE_AVX)));
    push_line(&mut text, "feature_avx2", yes_no(c.has_base(FEATURE_AVX2)));
    push_line(&mut text, "feature_avx512f", yes_no(c.has_base(FEATURE_AVX512F)));
    push_line(&mut text, "feature_avx512bw", yes_no(c.has_ext(FEATURE_AVX512BW)));
    push_line(&mut text, "feature_avx512dq", yes_no(c.has_ext(FEATURE_AVX512DQ)));
    push_line(&mut text, "feature_avx512vl", yes_no(c.has_ext(FEATURE_AVX512VL)));
    push_line(&mut text, "feature_neon", yes_no(c.has_base(FEATURE_NEON)));
    push_line(&mut text, "feature_altivec", yes_no(c.has_base(FEATURE_ALTIVEC)));
    push_line(&mut text, "feature_vsx", yes_no(c.has_base(FEATURE_VSX)));
    text
}

/// `text` with a flag appended, after a space unless it is empty.
pub open spec fn with_flag(text: Seq<char>, flag: Seq<char>) -> Seq<char> {
    if text.len() == 0 { flag } else { text + seq![' '] + flag }
}

fn append_flag(text: &mut Vec<char>, flag: &str)
    ensures
        final(text)@ == with_flag(old(text)@, flag@),
{
    if text.len() != 0 {
        text.push(' ');
    }
    push_str(text, flag);
    assert(text@ =~= with_flag(old(text)@, flag@));
}

pub open spec fn flag_if(text: Seq<char>, on: bool, flag: Seq<char>) -> Seq<char> {
    if on { with_flag(text, flag) } else { text }
}

/// `text` with the flags of the usable features appended, as `/proc/cpuinfo` lists them.
pub open spec fn with_cpuinfo_flags(t: Seq<char>, c: VectorCaps) -> Seq<char> {
    let t1 = flag_if(t, c.base_bits & FEATURE_AVX != 0, "avx"@);
    let t2 = flag_if(t1, c.base_bits & FEATURE_AVX2 != 0, "avx2"@);
    let t3 = flag_if(t2, c.base_bits & FEATURE_AVX512F != 0, "avx512f"@);
    let t4 = flag_if(t3, c.ext_bits & FEATURE_AVX512BW != 0, "avx512bw"@);
    let t5 = flag_if(t4, c.ext_bits & FEATURE_AVX512DQ != 0, "avx512dq"@);
    let t6 = flag_if(t5, c.ext_bits & FEATURE_AVX512VL != 0, "avx512vl"@);
    let t7 = flag_if(t6, c.base_bits & FEATURE_NEON != 0, "neon"@);
    let t8 = flag_if(t7, c.base_bits & FEATURE_ALTIVEC != 0, "altivec"@);
    flag_if(t8, c.base_bits & FEATURE_VSX != 0, "vsx"@)
}

/// Appends the flags of the usable vector features.
pub fn append_cpuinfo_flags(text: &mut Vec<char>, caps: &VectorCaps)
    ensures
        final(text)@ == with_cpuinfo_flags(old(text)@, *caps),
{
    let c = *caps;
    if c.has_base(FEATURE_AVX) {
        append_flag(text, "avx");
    }
    if c.has_base(FEATURE_AVX2) {
        append_flag(text, "avx2");
    }
    if c.has_base(FEATURE_AVX512F) {
        append_flag(text, "avx512f");
    }
    if c.has_ext(FEATURE_AVX512BW) {
        append_flag(text, "avx512bw");
    }
    if c.has_ext(FEATURE_AVX512DQ) {
        append_flag(text, "avx512dq");
    }
    if c.has_ext(FEATURE_AVX512VL) {
        append_flag(text, "avx512vl");
    }
    if c.has_base(FEATURE_NEON) {
        append_flag(text, "neon");
    }
    if c.has_base(FEATURE_ALTIVEC) {
        append_flag(text, "altivec");
    }
    if c.has_base(FEATURE_VSX) {
        append_flag(text, "vsx");
    }
}

} // verus!
