use cachesim::action::{matching, Instruction};
use cachesim::instruction::{u32_bits, u32_i_imm, u32_inst, u32_inst_sign, u32_j_imm, u32_opcode, InstFormat, InstrMatch};

#[test]
fn instruction_test001() {
    assert_eq!(u32_inst_sign(0x7fffffff, 5), 0);
    assert_eq!(u32_inst_sign(0x81234567, 16), 0xffff_ffff_ffff_0000);
    assert_eq!(u32_bits(0xfa5ff0ef, 0, 6), 0b10_1111);
    assert_eq!(u32_bits(0xfa5ff0ef, 4, 6), 0b10);
    assert_eq!(u32_inst(0xfa5ff0ef, 0, 6, 4), 0b10_1111_0000);
    assert_eq!(u32_j_imm(0xfa5ff0ef), (-0x5ci32) as u64);
}

#[test]
fn addi_is_decoded() {
    // addi ra, zero, -1
    let word: u32 = 0xfff0_0093;
    match matching(word) {
        Instruction::ADDI(ops) => {
            assert_eq!(ops.imm, u64::MAX);
            assert_eq!(ops.rd.index(), 1);
            assert_eq!(ops.rs1.index(), 0);
        }
        Instruction::LUI() => panic!("expected addi"),
    }
    // lui a0, 0x12345
    assert!(matches!(matching(0x1234_5537u32), Instruction::LUI()));
}

#[test]
fn immediates_of_each_format() {
    // sw a1, -4(sp): imm = -4
    let sw: u32 = 0xfeb1_2e23;
    assert!(sw.is_match(InstFormat::SFormat(0b010, 0b0100011)));
    let s = sw.decode_S();
    assert_eq!(s.imm, (-4i64) as u64);
    assert_eq!(s.rs2.index(), 11);
    assert_eq!(s.rs1.index(), 2);
    // lui a0, 0x12345
    let lui: u32 = 0x1234_5537;
    assert!(lui.is_match(InstFormat::UFormat(0b0110111)));
    let u = lui.decode_U();
    assert_eq!(u.imm, 0x1234_5000);
    assert_eq!(u.rd.index(), 10);
    // add a0, a1, a2
    let add: u32 = 0x00c5_8533;
    assert!(add.is_match(InstFormat::RFormat(0, 0, 0b0110011)));
    assert!(!add.is_match(InstFormat::RFormat(0b0100000, 0, 0b0110011)));
    let r = add.decode_R();
    assert_eq!((r.rd.index(), r.rs1.index(), r.rs2.index()), (10, 11, 12));
    // beq a0, a1, +8
    let beq: u32 = 0x00b5_0463;
    let b = beq.decode_B();
    assert_eq!(b.imm, 8);
    assert_eq!((b.rs1.index(), b.rs2.index()), (10, 11));
    // jal ra, +16
    let jal: u32 = 0x0100_00ef;
    assert!(jal.is_match(InstFormat::JFormat(0b1101111)));
    let j = jal.decode_J();
    assert_eq!(j.imm, 16);
    assert_eq!(j.rd.index(), 1);
    assert_eq!(u32_i_imm(0x8000_0013), 0xffff_ffff_ffff_f800);
    assert_eq!(u32_opcode(0x0100_00ef), 0b1101111);
}
