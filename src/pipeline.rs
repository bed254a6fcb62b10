//! The five-stage pipeline model: what executing an instruction does to the
//! registers and the cache, and how the stages advance and are counted.
use vstd::prelude::*;
use crate::action::{ExecuteInfo, Instruction};
use crate::cache::{Cache, CacheOp};
use crate::model::{access_cache, cache_room, cache_wf};
use crate::register::RegisterFile;

verus! {

/// The counters of the pipeline model.
#[derive(Clone, Copy, Debug, Default)]
pub struct PipelineStats {
    pub cycle: u64,
    pub num_inst: u64,
    pub num_branch: u64,
    pub num_mis_pred: u64,
    pub num_data_hazard: u64,
}

/// The cycles an instruction in the execute stage costs, given the one in the
/// memory stage: the longer of the two stages, and at least two when the
/// execute stage reads the register the memory stage loads.
pub open spec fn step_cycles(mem: ExecuteInfo, ex: ExecuteInfo) -> u64 {
    let cycles = if mem.mem_access >= ex.exe_cycles {
        mem.mem_access
    } else {
        ex.exe_cycles
    };
    if load_use_hazard(mem, ex) && cycles < 2 {
        2
    } else {
        cycles
    }
}

/// The execute stage reads the register that the memory stage loads.
pub open spec fn load_use_hazard(mem: ExecuteInfo, ex: ExecuteInfo) -> bool {
    mem.load_reg.spec_index() != 0 && (ex.reg_read[0] == mem.load_reg || ex.reg_read[1] == mem.load_reg)
}

/// The stages, newest first (fetch, decode, execute, memory, write-back), and
/// the counters.
pub struct Pipeline {
    pub instr: [ExecuteInfo; 5],
    pub stats: PipelineStats,
}

impl Pipeline {
    /// Every stage empty, every counter zero.
    pub fn new() -> (r: Pipeline)
        ensures
            r.stats.cycle == 0 && r.stats.num_inst == 0 && r.stats.num_branch == 0
                && r.stats.num_mis_pred == 0 && r.stats.num_data_hazard == 0,
    {
        Pipeline {
            instr: [
                ExecuteInfo::default(),
                ExecuteInfo::default(),
                ExecuteInfo::default(),
                ExecuteInfo::default(),
                ExecuteInfo::default(),
            ],
            stats: PipelineStats { cycle: 0, num_inst: 0, num_branch: 0, num_mis_pred: 0, num_data_hazard: 0 },
        }
    }

    /// Whether one more step fits every counter.
    pub open spec fn can_step(&self) -> bool {
        &&& self.stats.num_inst < u64::MAX
        &&& self.stats.num_branch < u64::MAX
        &&& self.stats.num_mis_pred < u64::MAX
        &&& self.stats.num_data_hazard < u64::MAX
        &&& self.stats.cycle + step_cycles(self.instr[2], self.instr[1]) <= u64::MAX
    }

    /// Tells whether one more step fits every counter.
    pub fn has_room(&self) -> (r: bool)
        ensures
            r == self.can_step(),
    {
        if self.stats.num_inst == u64::MAX || self.stats.num_branch == u64::MAX || self.stats.num_mis_pred
            == u64::MAX || self.stats.num_data_hazard == u64::MAX {
            return false;
        }
        self.stats.cycle <= u64::MAX - cycles_of(&self.instr[2], &self.instr[1])
    }

    /// Moves every instruction one stage on, puts `info` in the first stage,
    /// and counts the cycles, hazard and branch of the instruction that
    /// reaches the execute stage.
    pub fn single_step(&mut self, info: ExecuteInfo)
        requires
            old(self).can_step(),
        ensures
            final(self).instr@ == seq![info].add(old(self).instr@.subrange(0, 4)),
            final(self).stats.num_inst == old(self).stats.num_inst + 1,
            final(self).stats.cycle == old(self).stats.cycle + step_cycles(old(self).instr[2], old(self).instr[1]),
            final(self).stats.num_data_hazard == old(self).stats.num_data_hazard + if load_use_hazard(
                old(self).instr[2],
                old(self).instr[1],
            ) {
                1int
            } else {
                0int
            },
            final(self).stats.num_branch == old(self).stats.num_branch + if old(self).instr[1].is_branch {
                1int
            } else {
                0int
            },
            final(self).stats.num_mis_pred == old(self).stats.num_mis_pred + if old(self).instr[1].is_branch
                && !old(self).instr[1].taken_branch {
                1int
            } else {
                0int
            },
    {
        self.stats.num_inst = self.stats.num_inst + 1;
        self.instr[4] = self.instr[3];
        self.instr[3] = self.instr[2];
        self.instr[2] = self.instr[1];
        self.instr[1] = self.instr[0];
        self.instr[0] = info;
        let cycles = cycles_of(&self.instr[3], &self.instr[2]);
        if hazard_of(&self.instr[3], &self.instr[2]) {
            self.stats.num_data_hazard = self.stats.num_data_hazard + 1;
        }
        if self.instr[2].is_branch {
            self.stats.num_branch = self.stats.num_branch + 1;
            if !self.instr[2].taken_branch {
                self.stats.num_mis_pred = self.stats.num_mis_pred + 1;
            }
        }
        self.stats.cycle = self.stats.cycle + cycles;
        proof {
            assert(self.instr@ =~= seq![info].add(old(self).instr@.subrange(0, 4)));
        }
    }
}

/// Whether the execute stage reads what the memory stage loads.
fn hazard_of(mem: &ExecuteInfo, ex: &ExecuteInfo) -> (r: bool)
    ensures
        r == load_use_hazard(*mem, *ex),
{
    mem.load_reg.not_zero() && (ex.reg_read[0] == mem.load_reg || ex.reg_read[1] == mem.load_reg)
}

/// The cycles the step that brings `ex` to execute costs.
fn cycles_of(mem: &ExecuteInfo, ex: &ExecuteInfo) -> (r: u64)
    ensures
        r == step_cycles(*mem, *ex),
{
    let mut cycles = if mem.mem_access >= ex.exe_cycles {
        mem.mem_access
    } else {
        ex.exe_cycles
    };
    if hazard_of(mem, ex) && cycles < 2 {
        cycles = 2;
    }
    cycles
}

/// The registers an instruction names all exist.
pub open spec fn operands_valid(inst: Instruction) -> bool {
    match inst {
        Instruction::ADDI(ops) => ops.rs1.valid() && ops.rd.valid(),
        Instruction::LUI() => true,
    }
}

/// Tells whether the registers `inst` names all exist.
pub fn has_valid_operands(inst: &Instruction) -> (r: bool)
    ensures
        r == operands_valid(*inst),
{
    match inst {
        Instruction::ADDI(ops) => ops.rs1.index() < 32 && ops.rd.index() < 32,
        Instruction::LUI() => true,
    }
}

/// Executes `inst`: `addi` writes the sum, wrapping, of its source register
/// and immediate to its destination; then the access of the memory stage goes
/// to the cache, whose cost is reported.
pub fn execute(regs: &mut RegisterFile, cache: &mut Cache, inst: Instruction) -> (r: ExecuteInfo)
    requires
        operands_valid(inst),
        cache_wf(old(cache)@),
        cache_room(old(cache)@, 1),
    ensures
        match inst {
            Instruction::ADDI(ops) => final(regs)@ == if ops.rd.spec_index() == 0 {
                old(regs)@
            } else {
                old(regs)@.update(
                    ops.rd.spec_index(),
                    ((old(regs)@[ops.rs1.spec_index()] + ops.imm) % 0x1_0000_0000_0000_0000) as u64,
                )
            },
            Instruction::LUI() => final(regs)@ == old(regs)@,
        },
        (final(cache)@, r.mem_access as int) == access_cache(old(cache)@, 0, CacheOp::Read),
        r.exe_cycles == 1,
        !r.is_branch,
        !r.taken_branch,
        r.load_reg.spec_index() == 0,
{
    let access: u64 = 0;
    match inst {
        Instruction::ADDI(ops) => {
            let value = regs.get(ops.rs1).wrapping_add(ops.imm);
            regs.set(ops.rd, value);
        },
        Instruction::LUI() => {},
    }
    let mut info = ExecuteInfo::default();
    info.exe_cycles = 1;
    info.mem_access = cache.access(access, CacheOp::Read);
    info
}

} // verus!
