//! Putting the RK3588S PCIe 3.0 x4 controller and its PHY into endpoint mode: the
//! sequence of masked register writes, the wait for the PCIe power domain, the reset
//! release, and the wait for the PHY PLL to lock. The caller performs each register access
//! and reports what it read.
use vstd::prelude::*;
use crate::gboot::{masked_write, write_enable_mask};

verus! {

pub const SYS_GRF_SOC_CON0: u64 = 0xFD58_0300;
pub const PHP_GRF_CON0: u64 = 0xFD5B_0000;
pub const PCIE30_PHY_GRF_CON0: u64 = 0xFD5B_8000;
pub const PCIE30_PHY_GRF_STATUS0: u64 = 0xFD5B_8080;
pub const PMU_PD_CON: u64 = 0xFD8D_0000;
pub const PMU_POWER_ST: u64 = 0xFD8D_0080;
pub const CRU_CLKGATE_CON28: u64 = 0xFD7C_0370;
pub const CRU_CLKGATE_CON29: u64 = 0xFD7C_0374;
pub const CRU_SOFTRST_CON28: u64 = 0xFD7C_0A70;

pub const PCIE_EP_MODE_FORCE: u16 = 0x0010;
pub const PCIE30X4_DEVICE_TYPE_EP: u16 = 0x0001;
pub const PHY_MODE_SEL_MASK: u16 = 0x0001;
pub const REFCLK_SEL_MASK: u16 = 0x0002;
pub const PHY_MODE_SEL_EP: u16 = 0x0001;
pub const REFCLK_SEL_EXT: u16 = 0x0000;
pub const PD_PCIE_CON_MASK: u16 = 0x0010;
pub const PD_PCIE_PWR_ON: u16 = 0x0000;
pub const PMU_POWER_ST_PD_PCIE: u32 = 0x0010;
pub const CLKGATE_CON28_ALL: u16 = 0x0007;
pub const CLKGATE_CON29_ALL: u16 = 0x0030;
pub const SOFTRST_ALL: u16 = 0x000F;
pub const SOFTRST_PHY: u16 = 0x0008;
pub const SOFTRST_CTRL: u16 = 0x0007;
pub const PHY_RESET_N: u16 = 0x0010;
pub const PHY_PLL_LOCK: u32 = 0x0001;

pub const PMU_POLL_LIMIT: u32 = 100_000;
pub const PLL_POLL_LIMIT: u32 = 10_000_000;
pub const RESET_SPIN: u32 = 1_000;

/// A register access or a pause the bring-up asks for.
#[derive(Copy, Clone, Debug, PartialEq, Eq, Structural)]
pub enum PcieEpAction {
    Write { addr: u64, value: u32 },
    /// Read the register and report its value.
    Read { addr: u64 },
    Spin { iterations: u32 },
    /// The sequence is over; whether the PLL locked.
    Done { pll_locked: bool },
}

#[derive(Copy, Clone, Debug, PartialEq, Eq, Structural)]
pub enum PcieEpPhase {
    Start,
    SysGrfWritten,
    PhpGrfWritten,
    PhyGrfWritten,
    PowerRequested,
    PowerPoll,
    Clock28Ungated,
    Clock29Ungated,
    ResetAsserted,
    ResetSettled,
    PhyResetReleased,
    PhyInternalReleased,
    ControllerReleased,
    PllPoll,
    Finished,
}

pub struct PcieEpInit {
    pub phase: PcieEpPhase,
    pub pmu_polls_left: u32,
    pub pll_polls_left: u32,
    /// The power domain did not report active within the poll limit.
    pub power_timed_out: bool,
    pub pll_locked: bool,
}

/// The write that moves the sequence on from each phase that ends in a write.
pub open spec fn phase_write(p: PcieEpPhase) -> Option<(u64, u32, PcieEpPhase)> {
    match p {
        PcieEpPhase::Start => Some((SYS_GRF_SOC_CON0, masked_write(PCIE_EP_MODE_FORCE, PCIE_EP_MODE_FORCE), PcieEpPhase::SysGrfWritten)),
        PcieEpPhase::SysGrfWritten => Some((PHP_GRF_CON0, masked_write(PCIE30X4_DEVICE_TYPE_EP, PCIE30X4_DEVICE_TYPE_EP), PcieEpPhase::PhpGrfWritten)),
        PcieEpPhase::PhpGrfWritten => Some((PCIE30_PHY_GRF_CON0, masked_write(PHY_MODE_SEL_MASK | REFCLK_SEL_MASK, PHY_MODE_SEL_EP | REFCLK_SEL_EXT), PcieEpPhase::PhyGrfWritten)),
        PcieEpPhase::PhyGrfWritten => Some((PMU_PD_CON, masked_write(PD_PCIE_CON_MASK, PD_PCIE_PWR_ON), PcieEpPhase::PowerRequested)),
        PcieEpPhase::Clock28Ungated => Some((CRU_CLKGATE_CON29, masked_write(CLKGATE_CON29_ALL, 0), PcieEpPhase::Clock29Ungated)),
        PcieEpPhase::Clock29Ungated => Some((CRU_SOFTRST_CON28, masked_write(SOFTRST_ALL, SOFTRST_ALL), PcieEpPhase::ResetAsserted)),
        PcieEpPhase::ResetSettled => Some((CRU_SOFTRST_CON28, masked_write(SOFTRST_PHY, 0), PcieEpPhase::PhyResetReleased)),
        PcieEpPhase::PhyResetReleased => Some((PCIE30_PHY_GRF_CON0, masked_write(PHY_RESET_N, PHY_RESET_N), PcieEpPhase::PhyInternalReleased)),
        PcieEpPhase::PhyInternalReleased => Some((CRU_SOFTRST_CON28, masked_write(SOFTRST_CTRL, 0), PcieEpPhase::ControllerReleased)),
        _ => None,
    }
}

/// The write that ungates the controller clocks, which follows the power-domain wait.
pub open spec fn ungate_write() -> PcieEpAction {
    PcieEpAction::Write { addr: CRU_CLKGATE_CON28, value: masked_write(CLKGATE_CON28_ALL, 0) }
}

impl PcieEpInit {
    pub fn new() -> (s: Self)
        ensures
            s.wf(),
            s.phase == PcieEpPhase::Start,
            s.pmu_polls_left == PMU_POLL_LIMIT,
            s.pll_polls_left == PLL_POLL_LIMIT,
            !s.power_timed_out && !s.pll_locked,
    {
        PcieEpInit {
            phase: PcieEpPhase::Start,
            pmu_polls_left: PMU_POLL_LIMIT,
            pll_polls_left: PLL_POLL_LIMIT,
            power_timed_out: false,
            pll_locked: false,
        }
    }

    /// Before and during the power-domain wait there are polls left and no timeout yet.
    pub open spec fn before_power_wait(&self) -> bool {
        self.phase == PcieEpPhase::Start || self.phase == PcieEpPhase::SysGrfWritten || self.phase
            == PcieEpPhase::PhpGrfWritten || self.phase == PcieEpPhase::PhyGrfWritten || self.phase
            == PcieEpPhase::PowerRequested || self.phase == PcieEpPhase::PowerPoll
    }

    pub open spec fn wf(&self) -> bool {
        &&& (self.before_power_wait() ==> self.pmu_polls_left > 0 && !self.power_timed_out)
        &&& (self.phase == PcieEpPhase::PllPoll ==> self.pll_polls_left > 0)
        &&& (self.phase != PcieEpPhase::Finished ==> !self.pll_locked)
    }

    /// The next access. `read` is the value of the register the last `Read` asked for; it
    /// is looked at only while polling.
    pub fn next(&mut self, read: u32) -> (a: PcieEpAction)
        requires
            old(self).wf(),
        ensures
            final(self).wf(),
            phase_write(old(self).phase) matches Some((addr, value, next)) ==> a == (PcieEpAction::Write {
                addr,
                value,
            }) && final(self).phase == next,
            old(self).phase == PcieEpPhase::Start ==> final(self).pmu_polls_left == old(self).pmu_polls_left
                && final(self).pll_polls_left == old(self).pll_polls_left,
            old(self).phase == PcieEpPhase::PowerRequested ==> a == (PcieEpAction::Read { addr: PMU_POWER_ST })
                && final(self).phase == PcieEpPhase::PowerPoll,
            old(self).phase == PcieEpPhase::PowerPoll ==> if read & PMU_POWER_ST_PD_PCIE == 0 {
                a == ungate_write() && final(self).phase == PcieEpPhase::Clock28Ungated
                    && !final(self).power_timed_out
            } else if old(self).pmu_polls_left == 1 {
                a == ungate_write() && final(self).phase == PcieEpPhase::Clock28Ungated
                    && final(self).power_timed_out
            } else {
                a == (PcieEpAction::Read { addr: PMU_POWER_ST }) && final(self).phase == PcieEpPhase::PowerPoll
                    && final(self).pmu_polls_left == old(self).pmu_polls_left - 1
            },
            old(self).phase == PcieEpPhase::ResetAsserted ==> a == (PcieEpAction::Spin { iterations: RESET_SPIN })
                && final(self).phase == PcieEpPhase::ResetSettled,
            old(self).phase == PcieEpPhase::ControllerReleased ==> if old(self).pll_polls_left > 0 {
                a == (PcieEpAction::Read { addr: PCIE30_PHY_GRF_STATUS0 }) && final(self).phase == PcieEpPhase::PllPoll
            } else {
                a == (PcieEpAction::Done { pll_locked: false }) && final(self).phase == PcieEpPhase::Finished
            },
            old(self).phase == PcieEpPhase::PllPoll ==> if read & PHY_PLL_LOCK != 0 {
                a == (PcieEpAction::Done { pll_locked: true }) && final(self).phase == PcieEpPhase::Finished
                    && final(self).pll_locked
            } else if old(self).pll_polls_left == 1 {
                a == (PcieEpAction::Done { pll_locked: false }) && final(self).phase == PcieEpPhase::Finished
                    && !final(self).pll_locked
            } else {
                a == (PcieEpAction::Read { addr: PCIE30_PHY_GRF_STATUS0 }) && final(self).phase == PcieEpPhase::PllPoll
                    && final(self).pll_polls_left == old(self).pll_polls_left - 1
            },
            old(self).phase == PcieEpPhase::Finished ==> a == (PcieEpAction::Done { pll_locked: old(self).pll_locked })
                && final(self).phase == PcieEpPhase::Finished,
    {
        match self.phase {
            PcieEpPhase::Start => {
                self.phase = PcieEpPhase::SysGrfWritten;
                PcieEpAction::Write {
                    addr: SYS_GRF_SOC_CON0,
                    value: write_enable_mask(PCIE_EP_MODE_FORCE, PCIE_EP_MODE_FORCE),
                }
            },
            PcieEpPhase::SysGrfWritten => {
                self.phase = PcieEpPhase::PhpGrfWritten;
                PcieEpAction::Write {
                    addr: PHP_GRF_CON0,
                    value: write_enable_mask(PCIE30X4_DEVICE_TYPE_EP, PCIE30X4_DEVICE_TYPE_EP),
                }
            },
            PcieEpPhase::PhpGrfWritten => {
                self.phase = PcieEpPhase::PhyGrfWritten;
                PcieEpAction::Write {
                    addr: PCIE30_PHY_GRF_CON0,
                    value: write_enable_mask(PHY_MODE_SEL_MASK | REFCLK_SEL_MASK, PHY_MODE_SEL_EP | REFCLK_SEL_EXT),
                }
            },
            PcieEpPhase::PhyGrfWritten => {
                self.phase = PcieEpPhase::PowerRequested;
                PcieEpAction::Write { addr: PMU_PD_CON, value: write_enable_mask(PD_PCIE_CON_MASK, PD_PCIE_PWR_ON) }
            },
            PcieEpPhase::PowerRequested => {
                self.phase = PcieEpPhase::PowerPoll;
                PcieEpAction::Read { addr: PMU_POWER_ST }
            },
            PcieEpPhase::PowerPoll => {
                if read & PMU_POWER_ST_PD_PCIE == 0 {
                    self.phase = PcieEpPhase::Clock28Ungated;
                    PcieEpAction::Write { addr: CRU_CLKGATE_CON28, value: write_enable_mask(CLKGATE_CON28_ALL, 0) }
                } else {
                    self.pmu_polls_left = self.pmu_polls_left - 1;
                    if self.pmu_polls_left == 0 {
                        self.power_timed_out = true;
                        self.phase = PcieEpPhase::Clock28Ungated;
                        PcieEpAction::Write {
                            addr: CRU_CLKGATE_CON28,
                            value: write_enable_mask(CLKGATE_CON28_ALL, 0),
                        }
                    } else {
                        PcieEpAction::Read { addr: PMU_POWER_ST }
                    }
                }
            },
            PcieEpPhase::Clock28Ungated => {
                self.phase = PcieEpPhase::Clock29Ungated;
                PcieEpAction::Write { addr: CRU_CLKGATE_CON29, value: write_enable_mask(CLKGATE_CON29_ALL, 0) }
            },
            PcieEpPhase::Clock29Ungated => {
                self.phase = PcieEpPhase::ResetAsserted;
                PcieEpAction::Write { addr: CRU_SOFTRST_CON28, value: write_enable_mask(SOFTRST_ALL, SOFTRST_ALL) }
            },
            PcieEpPhase::ResetAsserted => {
                self.phase = PcieEpPhase::ResetSettled;
                PcieEpAction::Spin { iterations: RESET_SPIN }
            },
            PcieEpPhase::ResetSettled => {
                self.phase = PcieEpPhase::PhyResetReleased;
                PcieEpAction::Write { addr: CRU_SOFTRST_CON28, value: write_enable_mask(SOFTRST_PHY, 0) }
            },
            PcieEpPhase::PhyResetReleased => {
                self.phase = PcieEpPhase::PhyInternalReleased;
                PcieEpAction::Write { addr: PCIE30_PHY_GRF_CON0, value: write_enable_mask(PHY_RESET_N, PHY_RESET_N) }
            },
            PcieEpPhase::PhyInternalReleased => {
                self.phase = PcieEpPhase::ControllerReleased;
                PcieEpAction::Write { addr: CRU_SOFTRST_CON28, value: write_enable_mask(SOFTRST_CTRL, 0) }
            },
            PcieEpPhase::ControllerReleased => {
                if self.pll_polls_left > 0 {
                    self.phase = PcieEpPhase::PllPoll;
                    PcieEpAction::Read { addr: PCIE30_PHY_GRF_STATUS0 }
                } else {
                    self.phase = PcieEpPhase::Finished;
                    PcieEpAction::Done { pll_locked: false }
                }
            },
            PcieEpPhase::PllPoll => {
                if read & PHY_PLL_LOCK != 0 {
                    self.pll_locked = true;
                    self.phase = PcieEpPhase::Finished;
                    PcieEpAction::Done { pll_locked: true }
                } else {
                    self.pll_polls_left = self.pll_polls_left - 1;
                    if self.pll_polls_left > 0 {
                        PcieEpAction::Read { addr: PCIE30_PHY_GRF_STATUS0 }
                    } else {
                        self.phase = PcieEpPhase::Finished;
                        PcieEpAction::Done { pll_locked: false }
                    }
                }
            },
            PcieEpPhase::Finished => PcieEpAction::Done { pll_locked: self.pll_locked },
        }
    }
}

} // verus!
