//! Decoded instructions and what executing one reports to the pipeline.
#![allow(non_camel_case_types)]
use vstd::prelude::*;
use crate::instruction::{InstFormat, InstrMatch, IOperands, format_matches, i_imm, bits};
use crate::register::Reg;

verus! {

/// A decoded instruction.
#[derive(Debug)]
pub enum Instruction {
    ADDI(IOperands),
    LUI(),
}

/// What one instruction did, as the pipeline model needs it.
#[derive(Clone, Copy)]
pub struct ExecuteInfo {
    pub exe_cycles: u64,
    pub mem_access: u64,
    pub load_reg: Reg,
    pub reg_read: [Reg; 2],
    pub is_branch: bool,
    pub taken_branch: bool,
}

impl Default for ExecuteInfo {
    fn default() -> (r: ExecuteInfo)
        ensures
            r.exe_cycles == 0,
            r.mem_access == 0,
            r.load_reg.spec_index() == 0,
            r.reg_read[0].spec_index() == 0,
            r.reg_read[1].spec_index() == 0,
            !r.is_branch,
            !r.taken_branch,
    {
        ExecuteInfo {
            exe_cycles: 0,
            mem_access: 0,
            load_reg: Reg::default(),
            reg_read: [Reg::default(), Reg::default()],
            is_branch: false,
            taken_branch: false,
        }
    }
}

/// The opcode and function field of `addi`.
pub open spec fn addi_format() -> InstFormat {
    InstFormat::IFormat(0b000, 0b0010011)
}

/// Decodes `code`: `addi` with its operands, anything else as `lui`.
pub fn matching<T: InstrMatch>(code: T) -> (r: Instruction)
    ensures
        format_matches(code.word(), addi_format()) ==> (r matches Instruction::ADDI(ops) && ops.imm
            == i_imm(code.word()) && ops.rs1.spec_index() == bits(code.word(), 15, 20)
            && ops.rd.spec_index() == bits(code.word(), 7, 12)),
        !format_matches(code.word(), addi_format()) ==> r matches Instruction::LUI(),
{
    if code.is_match(InstFormat::IFormat(0b000, 0b0010011)) {
        Instruction::ADDI(code.decode_I())
    } else {
        Instruction::LUI()
    }
}

} // verus!
