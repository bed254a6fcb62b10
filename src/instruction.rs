//! Fields of 32-bit RISC-V instruction words.
#![allow(non_snake_case)]
use vstd::prelude::*;
use vstd::arithmetic::power2::{pow2, lemma2_to64, lemma_pow2_adds, lemma_pow2_pos, lemma_pow2_strictly_increases};
use vstd::bits::{lemma_u32_shl_is_mul, lemma_u32_shr_is_div, lemma_u32_low_bits_mask_is_mod, lemma_u32_pow2_no_overflow, lemma_u64_shl_is_mul, lemma_u64_pow2_no_overflow, low_bits_mask};
use crate::register::{Reg, lemma_from_u32};

verus! {

/// The bits an R-type pattern fixes: funct7, funct3 and the opcode.
pub const R_MASK: u32 = 0b_1111111_00000_00000_111_00000_1111111_u32;
/// The bits an I-, S- or B-type pattern fixes: funct3 and the opcode.
pub const I_MASK: u32 = 0b_0000000_00000_00000_111_00000_1111111_u32;
/// The bits a U- or J-type pattern fixes: the opcode.
pub const OP_MASK: u32 = 0b_0000000_00000_00000_000_00000_1111111_u32;

/// An encoding pattern: the function fields and opcode an instruction must
/// carry.
pub enum InstFormat {
    RFormat(u32, u32, u32),
    IFormat(u32, u32),
    SFormat(u32, u32),
    BFormat(u32, u32),
    UFormat(u32),
    JFormat(u32),
}

#[derive(Debug)]
pub struct ROperands {
    pub rs2: Reg,
    pub rs1: Reg,
    pub rd: Reg,
}

#[derive(Debug)]
pub struct IOperands {
    pub imm: u64,
    pub rs1: Reg,
    pub rd: Reg,
}

#[derive(Debug)]
pub struct SOperands {
    pub imm: u64,
    pub rs2: Reg,
    pub rs1: Reg,
}

#[derive(Debug)]
pub struct BOperands {
    pub imm: u64,
    pub rs2: Reg,
    pub rs1: Reg,
}

#[derive(Debug)]
pub struct UOperands {
    pub imm: u64,
    pub rd: Reg,
}

#[derive(Debug)]
pub struct JOperands {
    pub imm: u64,
    pub rd: Reg,
}

/// Bits `from` (included) to `to` (excluded) of `value`, as a number.
pub open spec fn bits(value: u32, from: nat, to: nat) -> nat {
    (value as nat / pow2(from)) % pow2((to - from) as nat)
}

/// Bits `from..to` of `value`, moved to start at bit `start`.
pub open spec fn field(value: u32, from: nat, to: nat, start: nat) -> nat {
    bits(value, from, to) * pow2(start)
}

/// Every bit from `start` up when the sign bit of `value` is set, else zero.
pub open spec fn sign_fill(value: u32, start: nat) -> nat {
    if value >= 0x8000_0000 {
        (pow2(64) - pow2(start)) as nat
    } else {
        0
    }
}

/// Bits `from..to` of `value`.
pub fn u32_bits(value: u32, from: u32, to: u32) -> (r: u32)
    requires
        from <= to,
        to - from < 32,
        from < 32,
    ensures
        r as nat == bits(value, from as nat, to as nat),
{
    let len = to - from;
    proof {
        lemma_u32_pow2_no_overflow(len as nat);
        lemma_u32_shl_is_mul(1, len);
        lemma_pow2_pos(len as nat);
        assert(low_bits_mask(len as nat) == pow2(len as nat) - 1);
    }
    let mask = (1u32 << len) - 1;
    proof {
        lemma_u32_shr_is_div(value, from);
        lemma_u32_low_bits_mask_is_mod(value >> from, len as nat);
    }
    (value >> from) & mask
}

/// Bits `from..to` of `value`, moved to start at bit `start`.
pub fn u32_inst(value: u32, from: u32, to: u32, start: u32) -> (r: u64)
    requires
        from <= to,
        to - from < 32,
        from < 32,
        to - from + start <= 64,
        start < 64,
    ensures
        r as nat == field(value, from as nat, to as nat, start as nat),
{
    let b = u32_bits(value, from, to);
    proof {
        let len = (to - from) as nat;
        lemma_pow2_pos(len);
        lemma_pow2_pos(start as nat);
        lemma_pow2_adds(len, start as nat);
        lemma2_to64();
        if len + start < 64 {
            lemma_pow2_strictly_increases(len + start as nat, 64);
        }
        assert((b as nat) * pow2(start as nat) < pow2(len) * pow2(start as nat)) by (nonlinear_arith)
            requires
                b < pow2(len),
                pow2(start as nat) > 0,
        ;
        assert(pow2(len + start as nat) <= pow2(64));
        lemma_u64_pow2_no_overflow(start as nat);
        lemma_u64_shl_is_mul(b as u64, start as u64);
    }
    (b as u64) << start as u64
}

/// Every bit from `start` up when the sign bit of `value` is set, else zero.
pub fn u32_inst_sign(value: u32, start: u32) -> (r: u64)
    requires
        start < 64,
    ensures
        r as nat == sign_fill(value, start as nat),
{
    proof {
        lemma2_to64();
        lemma_u64_pow2_no_overflow(start as nat);
        lemma_u64_shl_is_mul(1, start as u64);
        let s = start as u64;
        assert(0xFFFF_FFFF_FFFF_FFFFu64 << s == 0xFFFF_FFFF_FFFF_FFFFu64 - ((1u64 << s) - 1u64)) by (bit_vector)
            requires
                s < 64,
        ;
        assert(value >= 0x8000_0000 <==> value >> 31u32 == 1u32) by (bit_vector);
    }
    if value >> 31u32 == 1 {
        0xFFFF_FFFF_FFFF_FFFFu64 << start as u64
    } else {
        0
    }
}

/// The opcode: bits 0 to 6.
pub fn u32_opcode(value: u32) -> (r: u32)
    ensures
        r as nat == bits(value, 0, 7),
{
    u32_bits(value, 0, 7)
}

/// The destination register: bits 7 to 11.
pub fn u32_rd(value: u32) -> (r: Reg)
    ensures
        r.spec_index() == bits(value, 7, 12),
{
    let b = u32_bits(value, 7, 12);
    proof {
        lemma_pow2_bound(value, 7, 12);
        lemma_from_u32(b);
    }
    Reg::from(b)
}

/// The first source register: bits 15 to 19.
pub fn u32_rs1(value: u32) -> (r: Reg)
    ensures
        r.spec_index() == bits(value, 15, 20),
{
    let b = u32_bits(value, 15, 20);
    proof {
        lemma_pow2_bound(value, 15, 20);
        lemma_from_u32(b);
    }
    Reg::from(b)
}

/// The second source register: bits 20 to 24.
pub fn u32_rs2(value: u32) -> (r: Reg)
    ensures
        r.spec_index() == bits(value, 20, 25),
{
    let b = u32_bits(value, 20, 25);
    proof {
        lemma_pow2_bound(value, 20, 25);
        lemma_from_u32(b);
    }
    Reg::from(b)
}

/// A five-bit field is below 32.
proof fn lemma_pow2_bound(value: u32, from: nat, to: nat)
    requires
        from <= to,
        to - from == 5,
    ensures
        bits(value, from, to) < 32,
{
    lemma2_to64();
}

/// The I-type immediate: bits 20 to 30, sign-extended from bit 31.
pub open spec fn i_imm(value: u32) -> u64 {
    (sign_fill(value, 11) as u64) | (field(value, 20, 31, 0) as u64)
}

/// The S-type immediate: bits 25 to 30 over bits 7 to 11, sign-extended.
pub open spec fn s_imm(value: u32) -> u64 {
    (sign_fill(value, 11) as u64) | (field(value, 25, 31, 5) as u64) | (field(value, 7, 12, 0) as u64)
}

/// The B-type immediate: bit 7 as bit 11, bits 25 to 30 as bits 5 to 10,
/// bits 8 to 11 as bits 1 to 4, and the sign from bit 31 up.
pub open spec fn b_imm(value: u32) -> u64 {
    (sign_fill(value, 31) as u64) | (field(value, 7, 8, 11) as u64) | (field(value, 25, 31, 5) as u64)
        | (field(value, 8, 12, 1) as u64)
}

/// The U-type immediate: bits 12 to 30 in place, sign-extended from bit 31.
pub open spec fn u_imm(value: u32) -> u64 {
    (sign_fill(value, 31) as u64) | (field(value, 12, 31, 12) as u64)
}

/// The J-type immediate: bits 12 to 19 in place, bit 20 as bit 11, bits 21
/// to 30 as bits 1 to 10, and the sign from bit 20 up.
pub open spec fn j_imm(value: u32) -> u64 {
    (sign_fill(value, 20) as u64) | (field(value, 12, 20, 12) as u64) | (field(value, 20, 21, 11) as u64)
        | (field(value, 21, 31, 1) as u64)
}

/// The I-type immediate of `value`.
pub fn u32_i_imm(value: u32) -> (r: u64)
    ensures
        r == i_imm(value),
{
    u32_inst_sign(value, 11) | u32_inst(value, 20, 31, 0)
}

/// The S-type immediate of `value`.
pub fn u32_s_imm(value: u32) -> (r: u64)
    ensures
        r == s_imm(value),
{
    u32_inst_sign(value, 11) | u32_inst(value, 25, 31, 5) | u32_inst(value, 7, 12, 0)
}

/// The B-type immediate of `value`.
pub fn u32_b_imm(value: u32) -> (r: u64)
    ensures
        r == b_imm(value),
{
    u32_inst_sign(value, 31) | u32_inst(value, 7, 8, 11) | u32_inst(value, 25, 31, 5) | u32_inst(
        value,
        8,
        12,
        1,
    )
}

/// The U-type immediate of `value`.
pub fn u32_u_imm(value: u32) -> (r: u64)
    ensures
        r == u_imm(value),
{
    u32_inst_sign(value, 31) | u32_inst(value, 12, 31, 12)
}

/// The J-type immediate of `value`.
pub fn u32_j_imm(value: u32) -> (r: u64)
    ensures
        r == j_imm(value),
{
    u32_inst_sign(value, 20) | u32_inst(value, 12, 20, 12) | u32_inst(value, 20, 21, 11) | u32_inst(
        value,
        21,
        31,
        1,
    )
}

/// Whether `word` carries the fields that `format` asks for.
pub open spec fn format_matches(word: u32, format: InstFormat) -> bool {
    match format {
        InstFormat::RFormat(funct7, funct3, op) => (word & R_MASK) == ((funct7 << 25u32) | (funct3
            << 12u32) | op),
        InstFormat::IFormat(funct3, op) => (word & I_MASK) == ((funct3 << 12u32) | op),
        InstFormat::SFormat(funct3, op) => (word & I_MASK) == ((funct3 << 12u32) | op),
        InstFormat::BFormat(funct3, op) => (word & I_MASK) == ((funct3 << 12u32) | op),
        InstFormat::UFormat(op) => (word & OP_MASK) == op,
        InstFormat::JFormat(op) => (word & OP_MASK) == op,
    }
}

/// Matching and decoding of instruction words.
pub trait InstrMatch {
    /// The instruction word.
    spec fn word(&self) -> u32;

    fn is_match(&self, format: InstFormat) -> (r: bool)
        ensures
            r == format_matches(self.word(), format),
    ;

    fn decode_I(&self) -> (r: IOperands)
        ensures
            r.imm == i_imm(self.word()),
            r.rs1.spec_index() == bits(self.word(), 15, 20),
            r.rd.spec_index() == bits(self.word(), 7, 12),
    ;

    fn decode_S(&self) -> (r: SOperands)
        ensures
            r.imm == s_imm(self.word()),
            r.rs2.spec_index() == bits(self.word(), 20, 25),
            r.rs1.spec_index() == bits(self.word(), 15, 20),
    ;

    fn decode_R(&self) -> (r: ROperands)
        ensures
            r.rs2.spec_index() == bits(self.word(), 20, 25),
            r.rs1.spec_index() == bits(self.word(), 15, 20),
            r.rd.spec_index() == bits(self.word(), 7, 12),
    ;

    fn decode_B(&self) -> (r: BOperands)
        ensures
            r.imm == b_imm(self.word()),
            r.rs2.spec_index() == bits(self.word(), 20, 25),
            r.rs1.spec_index() == bits(self.word(), 15, 20),
    ;

    fn decode_U(&self) -> (r: UOperands)
        ensures
            r.imm == u_imm(self.word()),
            r.rd.spec_index() == bits(self.word(), 7, 12),
    ;

    fn decode_J(&self) -> (r: JOperands)
        ensures
            r.imm == j_imm(self.word()),
            r.rd.spec_index() == bits(self.word(), 7, 12),
    ;
}

impl InstrMatch for u32 {
    open spec fn word(&self) -> u32 {
        *self
    }

    fn is_match(&self, format: InstFormat) -> (r: bool) {
        match format {
            InstFormat::RFormat(funct7, funct3, op) => {
                let v = (funct7 << 25u32) | (funct3 << 12u32) | op;
                (*self & R_MASK) == v
            },
            InstFormat::IFormat(funct3, op) => {
                let v = (funct3 << 12u32) | op;
                (*self & I_MASK) == v
            },
            InstFormat::SFormat(funct3, op) => {
                let v = (funct3 << 12u32) | op;
                (*self & I_MASK) == v
            },
            InstFormat::BFormat(funct3, op) => {
                let v = (funct3 << 12u32) | op;
                (*self & I_MASK) == v
            },
            InstFormat::UFormat(op) => (*self & OP_MASK) == op,
            InstFormat::JFormat(op) => (*self & OP_MASK) == op,
        }
    }

    fn decode_I(&self) -> (r: IOperands) {
        IOperands { imm: u32_i_imm(*self), rs1: u32_rs1(*self), rd: u32_rd(*self) }
    }

    fn decode_S(&self) -> (r: SOperands) {
        SOperands { imm: u32_s_imm(*self), rs2: u32_rs2(*self), rs1: u32_rs1(*self) }
    }

    fn decode_R(&self) -> (r: ROperands) {
        ROperands { rs2: u32_rs2(*self), rs1: u32_rs1(*self), rd: u32_rd(*self) }
    }

    fn decode_B(&self) -> (r: BOperands) {
        BOperands { imm: u32_b_imm(*self), rs2: u32_rs2(*self), rs1: u32_rs1(*self) }
    }

    fn decode_U(&self) -> (r: UOperands) {
        UOperands { imm: u32_u_imm(*self), rd: u32_rd(*self) }
    }

    fn decode_J(&self) -> (r: JOperands) {
        JOperands { imm: u32_j_imm(*self), rd: u32_rd(*self) }
    }
}

} // verus!
