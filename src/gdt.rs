use vstd::prelude::*;
use crate::memory::{canonical_address, is_canonical};

verus! {

/// Slot of the task-state block's emergency-stack table used for double faults.
pub const DOUBLE_FAULT_IST_INDEX: u16 = 0;

/// Size in bytes of the dedicated double-fault stack: five 4096-byte units.
pub const DOUBLE_FAULT_STACK_SIZE: u64 = 4096 * 5;

/// Top of the double-fault stack whose lowest byte is at `stack_start`, or
/// `None` when that address does not fit in 64 bits or is not canonical.
pub fn double_fault_stack_top(stack_start: u64) -> (r: Option<u64>)
    ensures
        r == (if stack_start + DOUBLE_FAULT_STACK_SIZE <= u64::MAX && is_canonical(
            (stack_start + DOUBLE_FAULT_STACK_SIZE) as u64,
        ) {
            Some((stack_start + DOUBLE_FAULT_STACK_SIZE) as u64)
        } else {
            None::<u64>
        }),
{
    match stack_start.checked_add(DOUBLE_FAULT_STACK_SIZE) {
        Some(top) => if canonical_address(top) {
            Some(top)
        } else {
            None
        },
        None => None,
    }
}

/// The selectors of the kernel code, kernel data and task-state descriptors,
/// as the descriptor table handed them out.
#[derive(Clone, Copy, Debug, PartialEq, Eq, Structural)]
pub struct Selectors {
    pub code_selector: u16,
    pub data_selector: u16,
    pub tss_selector: u16,
}

impl Selectors {
    /// The three selectors name three different descriptors.
    pub open spec fn wf(self) -> bool {
        &&& self.code_selector != self.data_selector
        &&& self.code_selector != self.tss_selector
        &&& self.data_selector != self.tss_selector
    }
}

/// A segment register that receives a selector.
#[derive(Clone, Copy, Debug, PartialEq, Eq, Structural)]
pub enum SegmentRegister {
    Cs,
    Ss,
    Ds,
    Es,
    Fs,
    Gs,
}

/// One write of a selector into a register.
#[derive(Clone, Copy, Debug, PartialEq, Eq, Structural)]
pub enum RegisterLoad {
    Segment(SegmentRegister, u16),
    TaskRegister(u16),
}

/// What the segment registers and the task register hold; `None` for one
/// that this bootstrap has not written.
#[derive(Clone, Copy, Debug, PartialEq, Eq, Structural)]
pub struct SegmentRegisters {
    pub cs: Option<u16>,
    pub ss: Option<u16>,
    pub ds: Option<u16>,
    pub es: Option<u16>,
    pub fs: Option<u16>,
    pub gs: Option<u16>,
    pub tr: Option<u16>,
}

/// The registers after `load` is performed on `regs`.
pub open spec fn apply_load(regs: SegmentRegisters, load: RegisterLoad) -> SegmentRegisters {
    match load {
        RegisterLoad::Segment(SegmentRegister::Cs, s) => SegmentRegisters { cs: Some(s), ..regs },
        RegisterLoad::Segment(SegmentRegister::Ss, s) => SegmentRegisters { ss: Some(s), ..regs },
        RegisterLoad::Segment(SegmentRegister::Ds, s) => SegmentRegisters { ds: Some(s), ..regs },
        RegisterLoad::Segment(SegmentRegister::Es, s) => SegmentRegisters { es: Some(s), ..regs },
        RegisterLoad::Segment(SegmentRegister::Fs, s) => SegmentRegisters { fs: Some(s), ..regs },
        RegisterLoad::Segment(SegmentRegister::Gs, s) => SegmentRegisters { gs: Some(s), ..regs },
        RegisterLoad::TaskRegister(s) => SegmentRegisters { tr: Some(s), ..regs },
    }
}

/// The registers after `loads` are performed on `regs`, first to last.
pub open spec fn apply_loads(regs: SegmentRegisters, loads: Seq<RegisterLoad>) -> SegmentRegisters
    decreases loads.len(),
{
    if loads.len() == 0 {
        regs
    } else {
        apply_load(apply_loads(regs, loads.drop_last()), loads.last())
    }
}

/// The register writes that activate the descriptor table's selectors: the
/// code selector into CS, the task-state selector into the task register, then
/// the data selector into SS first and into every other data-segment register.
pub open spec fn load_sequence(selectors: Selectors) -> Seq<RegisterLoad> {
    seq![
        RegisterLoad::Segment(SegmentRegister::Cs, selectors.code_selector),
        RegisterLoad::TaskRegister(selectors.tss_selector),
        RegisterLoad::Segment(SegmentRegister::Ss, selectors.data_selector),
        RegisterLoad::Segment(SegmentRegister::Ds, selectors.data_selector),
        RegisterLoad::Segment(SegmentRegister::Es, selectors.data_selector),
        RegisterLoad::Segment(SegmentRegister::Fs, selectors.data_selector),
        RegisterLoad::Segment(SegmentRegister::Gs, selectors.data_selector),
    ]
}

/// The register writes to perform, in order, once the descriptor table is loaded.
pub fn register_load_sequence(selectors: &Selectors) -> (r: Vec<RegisterLoad>)
    ensures
        r@ == load_sequence(*selectors),
{
    let data = selectors.data_selector;
    let r = vec![
        RegisterLoad::Segment(SegmentRegister::Cs, selectors.code_selector),
        RegisterLoad::TaskRegister(selectors.tss_selector),
        RegisterLoad::Segment(SegmentRegister::Ss, data),
        RegisterLoad::Segment(SegmentRegister::Ds, data),
        RegisterLoad::Segment(SegmentRegister::Es, data),
        RegisterLoad::Segment(SegmentRegister::Fs, data),
        RegisterLoad::Segment(SegmentRegister::Gs, data),
    ];
    assert(r@ =~= load_sequence(*selectors));
    r
}

/// After the load sequence, whatever the registers held before, the stack
/// segment and every other data-segment register hold the data selector, the
/// code segment holds the code selector, which differs from it, and the task
/// register holds the task-state selector.
pub proof fn lemma_load_sequence_registers(selectors: Selectors, before: SegmentRegisters)
    requires
        selectors.wf(),
    ensures
        ({
            let after = apply_loads(before, load_sequence(selectors));
            &&& after.ss == Some(selectors.data_selector)
            &&& after.ds == after.ss
            &&& after.es == after.ss
            &&& after.fs == after.ss
            &&& after.gs == after.ss
            &&& after.cs == Some(selectors.code_selector)
            &&& after.cs != after.ss
            &&& after.tr == Some(selectors.tss_selector)
        }),
{
    let s = load_sequence(selectors);
    reveal_with_fuel(apply_loads, 8);
    assert(s.drop_last().drop_last().drop_last().drop_last().drop_last().drop_last().drop_last()
        =~= Seq::<RegisterLoad>::empty());
    assert(s.drop_last().drop_last().drop_last().drop_last().drop_last().drop_last() =~= seq![s[0]]);
    assert(s.drop_last().drop_last().drop_last().drop_last().drop_last() =~= seq![s[0], s[1]]);
    assert(s.drop_last().drop_last().drop_last().drop_last() =~= seq![s[0], s[1], s[2]]);
    assert(s.drop_last().drop_last().drop_last() =~= seq![s[0], s[1], s[2], s[3]]);
    assert(s.drop_last().drop_last() =~= seq![s[0], s[1], s[2], s[3], s[4]]);
    assert(s.drop_last() =~= seq![s[0], s[1], s[2], s[3], s[4], s[5]]);
}

} // verus!
