//! The RISC-V integer register file.
use vstd::prelude::*;

verus! {

/// The number of integer registers.
pub const REG_NUM: usize = 32;

/// The ABI names of the registers, by index.
pub open spec fn reg_names() -> Seq<Seq<char>> {
    seq![
        "zero"@, "ra"@, "sp"@, "gp"@, "tp"@, "t0"@, "t1"@, "t2"@,
        "s0"@, "s1"@, "a0"@, "a1"@, "a2"@, "a3"@, "a4"@, "a5"@,
        "a6"@, "a7"@, "s2"@, "s3"@, "s4"@, "s5"@, "s6"@, "s7"@,
        "s8"@, "s9"@, "s10"@, "s11"@, "t3"@, "t4"@, "t5"@, "t6"@,
    ]
}

/// The ABI name of register `i`.
pub fn reg_name(i: usize) -> (r: &'static str)
    requires
        i < REG_NUM,
    ensures
        r@ == reg_names()[i as int],
{
    match i {
        0 => "zero",
        1 => "ra",
        2 => "sp",
        3 => "gp",
        4 => "tp",
        5 => "t0",
        6 => "t1",
        7 => "t2",
        8 => "s0",
        9 => "s1",
        10 => "a0",
        11 => "a1",
        12 => "a2",
        13 => "a3",
        14 => "a4",
        15 => "a5",
        16 => "a6",
        17 => "a7",
        18 => "s2",
        19 => "s3",
        20 => "s4",
        21 => "s5",
        22 => "s6",
        23 => "s7",
        24 => "s8",
        25 => "s9",
        26 => "s10",
        27 => "s11",
        28 => "t3",
        29 => "t4",
        30 => "t5",
        _ => "t6",
    }
}

/// A register, by index.
#[derive(Clone, Copy, Debug, PartialEq, Eq, Structural)]
pub struct Reg {
    index: u8,
}

impl Reg {
    pub closed spec fn spec_index(&self) -> int {
        self.index as int
    }

    /// The index names one of the registers.
    pub open spec fn valid(&self) -> bool {
        self.spec_index() < REG_NUM
    }

    pub fn index(&self) -> (r: u8)
        ensures
            r as int == self.spec_index(),
    {
        self.index
    }

    /// Tells whether this is not the hardwired zero register.
    pub fn not_zero(&self) -> (r: bool)
        ensures
            r == (self.spec_index() != 0),
    {
        self.index != 0
    }
}

impl Default for Reg {
    fn default() -> (r: Reg)
        ensures
            r.spec_index() == 0,
    {
        Reg { index: 0 }
    }
}

impl From<u32> for Reg {
    /// Keeps the low eight bits of `index`.
    fn from(index: u32) -> (r: Reg) {
        Reg { index: #[verifier::truncate] (index as u8) }
    }
}

impl vstd::std_specs::convert::FromSpecImpl<u32> for Reg {
    open spec fn obeys_from_spec() -> bool {
        true
    }

    closed spec fn from_spec(index: u32) -> Reg {
        Reg { index: index as u8 }
    }
}

/// A register built from a `u32` below 256 has it as its index.
pub proof fn lemma_from_u32(index: u32)
    requires
        index < 256,
    ensures
        (<Reg as vstd::std_specs::convert::FromSpec<u32>>::from_spec(index)).spec_index() == index,
{
}

/// The register called `name`.
pub fn from_name(name: &str) -> (r: Reg)
    requires
        exists|i: int| 0 <= i < REG_NUM && reg_names()[i] == name@,
    ensures
        r.valid(),
        reg_names()[r.spec_index()] == name@,
        forall|j: int| 0 <= j < r.spec_index() ==> reg_names()[j] != name@,
{
    let wanted = name.to_owned();
    let mut i: usize = 0;
    while i < REG_NUM
        invariant
            wanted@ == name@,
            i <= REG_NUM,
            forall|j: int| 0 <= j < i ==> reg_names()[j] != name@,
        decreases REG_NUM - i,
    {
        let candidate = reg_name(i).to_owned();
        if candidate == wanted {
            return Reg { index: i as u8 };
        }
        i += 1;
    }
    proof {
        let k = choose|k: int| 0 <= k < REG_NUM && reg_names()[k] == name@;
        assert(reg_names()[k] != name@);
    }
    Reg { index: 0 }
}

/// The values of the 32 registers; register zero always reads as zero.
pub struct RegisterFile {
    regs: [u64; REG_NUM],
}

impl View for RegisterFile {
    type V = Seq<u64>;

    closed spec fn view(&self) -> Seq<u64> {
        self.regs@
    }
}

impl RegisterFile {
    /// All registers at zero.
    pub fn new() -> (r: RegisterFile)
        ensures
            r@ == Seq::new(REG_NUM as nat, |i: int| 0u64),
    {
        let r = RegisterFile { regs: [0u64; REG_NUM] };
        proof {
            assert(r@ =~= Seq::new(REG_NUM as nat, |i: int| 0u64));
        }
        r
    }

    pub fn get(&self, reg: Reg) -> (r: u64)
        requires
            reg.valid(),
        ensures
            r == self@[reg.spec_index()],
    {
        self.regs[reg.index as usize]
    }

    /// Writes `value` to `reg`; writes to register zero are ignored.
    pub fn set(&mut self, reg: Reg, value: u64)
        requires
            reg.valid(),
        ensures
            final(self)@ == if reg.spec_index() == 0 {
                old(self)@
            } else {
                old(self)@.update(reg.spec_index(), value)
            },
    {
        if reg.index == 0 {
            return;
        }
        self.regs[reg.index as usize] = value;
    }

    /// The value of the register called `reg`.
    pub fn get_by_name(&self, reg: &str) -> (r: u64)
        requires
            exists|i: int| 0 <= i < REG_NUM && reg_names()[i] == reg@,
        ensures
            exists|i: int| 0 <= i < REG_NUM && reg_names()[i] == reg@ && r == self@[i],
    {
        self.get(from_name(reg))
    }

    /// Writes `value` to the register called `reg`.
    pub fn set_by_name(&mut self, reg: &str, value: u64)
        requires
            exists|i: int| 0 <= i < REG_NUM && reg_names()[i] == reg@,
        ensures
            exists|i: int|
                0 <= i < REG_NUM && reg_names()[i] == reg@ && final(self)@ == if i == 0 {
                    old(self)@
                } else {
                    old(self)@.update(i, value)
                },
    {
        self.set(from_name(reg), value)
    }
}

} // verus!
