//! The state of the guest CPU that the linker and the host depend on.
//!
//! The instruction-set execution engine is a separate component: it owns
//! execution and reports how each run ended. This module holds the register
//! file and status word as the engine exposes them, the rules for entering
//! and leaving guest functions, and the record of code ranges whose
//! compiled code the engine must drop.

use crate::abi::GuestFunction;
use crate::mem::{GuestUSize, VAddr};
use vstd::prelude::*;

verus! {

/// The register number of the stack pointer.
pub const SP: usize = 13;

/// The register number of the link register.
pub const LR: usize = 14;

/// The register number of the program counter.
pub const PC: usize = 15;

/// When this bit is set in CPSR, the CPU is in Thumb mode.
pub const CPSR_THUMB: u32 = 0x00000020;

/// When this bit is set in CPSR, the CPU is in user mode.
pub const CPSR_USER_MODE: u32 = 0x00000010;

/// The status word after a branch to a function with the given Thumb flag.
pub open spec fn cpsr_with_thumb(cpsr: u32, thumb: bool) -> u32 {
    if thumb {
        cpsr | CPSR_THUMB
    } else {
        cpsr & !CPSR_THUMB
    }
}

pub open spec fn cpsr_is_thumb(cpsr: u32) -> bool {
    cpsr & CPSR_THUMB == CPSR_THUMB
}

/// Why a run of the execution engine ended.
#[derive(Clone, Copy, Debug, PartialEq, Eq, Structural)]
pub enum CpuState {
    /// Execution halted due to using up all remaining ticks.
    Normal,
    /// SVC instruction encountered, with its immediate.
    Svc(u32),
}

impl CpuState {
    /// Classify the code that the engine returns from a run: `-1` when the
    /// tick budget was used up (no tick may then be left), otherwise the
    /// non-negative immediate of the SVC instruction that stopped it.
    pub fn from_run_result(result: i32, ticks_left: u64) -> (r: CpuState)
        requires
            result >= -1,
            result == -1 ==> ticks_left == 0,
        ensures
            result == -1 ==> r == CpuState::Normal,
            result >= 0 ==> r == CpuState::Svc(result as u32),
    {
        if result == -1 {
            CpuState::Normal
        } else {
            CpuState::Svc(result as u32)
        }
    }
}

/// The guest CPU's register file and status word, and the code ranges that
/// have been rewritten since the engine last dropped its compiled code.
pub struct Cpu {
    regs: [u32; 16],
    cpsr: u32,
    invalidated: Vec<(VAddr, GuestUSize)>,
}

impl Cpu {
    pub closed spec fn spec_regs(&self) -> Seq<u32> {
        self.regs@
    }

    pub closed spec fn spec_cpsr(&self) -> u32 {
        self.cpsr
    }

    /// Ranges (base, size) whose cached compiled code is stale, oldest first.
    pub closed spec fn spec_invalidated(&self) -> Seq<(VAddr, GuestUSize)> {
        self.invalidated@
    }

    /// A CPU with every register and the status word zero.
    pub fn new() -> (r: Cpu)
        ensures
            r.spec_regs() == Seq::new(16, |i: int| 0u32),
            r.spec_cpsr() == 0,
            r.spec_invalidated() == Seq::<(VAddr, GuestUSize)>::empty(),
    {
        let r = Cpu { regs: [0u32; 16], cpsr: 0, invalidated: Vec::new() };
        assert(r.regs@ =~= Seq::new(16, |i: int| 0u32));
        r
    }

    pub fn regs(&self) -> (r: &[u32; 16])
        ensures
            r@ == self.spec_regs(),
    {
        &self.regs
    }

    pub fn regs_mut(&mut self) -> (r: &mut [u32; 16])
        ensures
            (*r)@ == old(self).spec_regs(),
            final(self).spec_regs() == (*final(r))@,
            final(self).spec_cpsr() == old(self).spec_cpsr(),
            final(self).spec_invalidated() == old(self).spec_invalidated(),
    {
        &mut self.regs
    }

    pub fn cpsr(&self) -> (r: u32)
        ensures
            r == self.spec_cpsr(),
    {
        self.cpsr
    }

    pub fn set_cpsr(&mut self, cpsr: u32)
        ensures
            final(self).spec_cpsr() == cpsr,
            final(self).spec_regs() == old(self).spec_regs(),
            final(self).spec_invalidated() == old(self).spec_invalidated(),
    {
        self.cpsr = cpsr;
    }

    /// Get PC with the Thumb bit appropriately set.
    pub fn pc_with_thumb_bit(&self) -> (r: GuestFunction)
        requires
            self.spec_regs()[PC as int] % 2 == 0,
        ensures
            r.spec_addr() == self.spec_regs()[PC as int],
            r.spec_is_thumb() == cpsr_is_thumb(self.spec_cpsr()),
    {
        let pc = self.regs[PC];
        let thumb = (self.cpsr & CPSR_THUMB) == CPSR_THUMB;
        GuestFunction::from_addr_and_thumb_flag(pc, thumb)
    }

    /// Set PC and the Thumb flag for executing a guest function. Note that this
    /// does not touch LR.
    pub fn branch(&mut self, new_pc: GuestFunction)
        ensures
            final(self).spec_regs() == old(self).spec_regs().update(PC as int, new_pc.spec_addr()),
            final(self).spec_cpsr() == cpsr_with_thumb(old(self).spec_cpsr(), new_pc.spec_is_thumb()),
            final(self).spec_invalidated() == old(self).spec_invalidated(),
    {
        self.regs[PC] = new_pc.addr_without_thumb_bit();
        let cpsr = self.cpsr;
        let cpsr_without_thumb = cpsr & !CPSR_THUMB;
        if new_pc.is_thumb() {
            self.cpsr = cpsr_without_thumb | CPSR_THUMB;
            assert(cpsr_without_thumb | 0x20u32 == cpsr | 0x20u32) by (bit_vector)
                requires
                    cpsr_without_thumb == cpsr & !0x20u32,
            ;
        } else {
            self.cpsr = cpsr_without_thumb;
        }
    }

    /// Set the PC and Thumb flag (like [Self::branch]), but also set the LR,
    /// and return the previous PC and LR.
    pub fn branch_with_link(&mut self, new_pc: GuestFunction, new_lr: GuestFunction) -> (r: (
        GuestFunction,
        GuestFunction,
    ))
        requires
            old(self).spec_regs()[PC as int] % 2 == 0,
        ensures
            r.0.spec_addr() == old(self).spec_regs()[PC as int],
            r.0.spec_is_thumb() == cpsr_is_thumb(old(self).spec_cpsr()),
            r.1.spec_bits() == old(self).spec_regs()[LR as int],
            final(self).spec_regs() == old(self).spec_regs().update(
                PC as int,
                new_pc.spec_addr(),
            ).update(LR as int, new_lr.spec_bits()),
            final(self).spec_cpsr() == cpsr_with_thumb(old(self).spec_cpsr(), new_pc.spec_is_thumb()),
            final(self).spec_invalidated() == old(self).spec_invalidated(),
    {
        let old_pc = self.pc_with_thumb_bit();
        let old_lr = GuestFunction::from_addr_with_thumb_bit(self.regs[LR]);
        self.branch(new_pc);
        self.regs[LR] = new_lr.addr_with_thumb_bit();
        (old_pc, old_lr)
    }

    /// Record that guest code in `base..base + size` was rewritten, so that
    /// the engine drops the code it compiled from there.
    pub fn invalidate_cache_range(&mut self, base: VAddr, size: GuestUSize)
        ensures
            final(self).spec_invalidated() == old(self).spec_invalidated().push((base, size)),
            final(self).spec_regs() == old(self).spec_regs(),
            final(self).spec_cpsr() == old(self).spec_cpsr(),
    {
        self.invalidated.push((base, size));
    }

    /// Hand over the recorded stale ranges, oldest first, and forget them.
    pub fn take_invalidated_ranges(&mut self) -> (r: Vec<(VAddr, GuestUSize)>)
        ensures
            r@ == old(self).spec_invalidated(),
            final(self).spec_invalidated() == Seq::<(VAddr, GuestUSize)>::empty(),
            final(self).spec_regs() == old(self).spec_regs(),
            final(self).spec_cpsr() == old(self).spec_cpsr(),
    {
        let mut taken: Vec<(VAddr, GuestUSize)> = Vec::new();
        std::mem::swap(&mut taken, &mut self.invalidated);
        taken
    }
}

} // verus!
