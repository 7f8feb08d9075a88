//! The CPUID instruction itself. An answer keeps the leaf and subleaf it was asked for
//! beside the registers; only the queries below make one, so a contract that speaks of
//! an answer for some leaf speaks of what the processor said for that leaf.
use vstd::prelude::*;
use crate::cpuid::CpuidRegs;

verus! {

/// The registers CPUID returned, and the leaf and subleaf they answer.
#[derive(Copy, Clone, Debug)]
pub struct CpuidAnswer {
    leaf: u32,
    subleaf: u32,
    regs: CpuidRegs,
}

impl CpuidAnswer {
    /// The leaf (EAX) that was asked.
    pub closed spec fn leaf(self) -> u32 {
        self.leaf
    }

    /// The subleaf (ECX) that was asked.
    pub closed spec fn subleaf(self) -> u32 {
        self.subleaf
    }

    /// The registers that came back.
    pub closed spec fn regs(self) -> CpuidRegs {
        self.regs
    }

    pub fn registers(&self) -> (r: CpuidRegs)
        ensures
            r == self.regs(),
    {
        self.regs
    }
}

/// The registers of a list of answers, in order.
pub open spec fn answer_regs(answers: Seq<CpuidAnswer>) -> Seq<CpuidRegs> {
    answers.map_values(|a: CpuidAnswer| a.regs())
}

/// Runs CPUID for `leaf` with `core::arch::x86_64::__cpuid`, which asks with ECX zero, and
/// records that leaf and subleaf zero beside the registers. The registers depend on the
/// processor, so nothing is stated of them.
#[verifier::external_body]
pub(crate) fn cpuid_leaf(leaf: u32) -> (r: CpuidAnswer)
    ensures
        r.leaf() == leaf,
        r.subleaf() == 0,
{
    let r = core::arch::x86_64::__cpuid(leaf);
    CpuidAnswer { leaf, subleaf: 0, regs: CpuidRegs { eax: r.eax, ebx: r.ebx, ecx: r.ecx, edx: r.edx } }
}

/// Runs CPUID for `leaf` and `subleaf` with `core::arch::x86_64::__cpuid_count`, and
/// records both beside the registers. The registers depend on the processor, so nothing
/// is stated of them.
#[verifier::external_body]
pub(crate) fn cpuid_subleaf(leaf: u32, subleaf: u32) -> (r: CpuidAnswer)
    ensures
        r.leaf() == leaf,
        r.subleaf() == subleaf,
{
    let r = core::arch::x86_64::__cpuid_count(leaf, subleaf);
    CpuidAnswer { leaf, subleaf, regs: CpuidRegs { eax: r.eax, ebx: r.ebx, ecx: r.ecx, edx: r.edx } }
}

} // verus!
