use cachesim::action::{matching, ExecuteInfo};
use cachesim::cache::new;
use cachesim::pipeline::{execute, has_valid_operands, Pipeline};
use cachesim::register::{from_name, RegisterFile};

#[test]
fn addi_writes_the_wrapped_sum() {
    let mut regs = RegisterFile::new();
    let mut cache = new();
    regs.set_by_name("a0", 5);
    // addi a1, a0, -1
    let inst = matching(0xfff5_0593u32);
    assert!(has_valid_operands(&inst));
    let info = execute(&mut regs, &mut cache, inst);
    assert_eq!(regs.get_by_name("a1"), 4);
    assert_eq!(info.exe_cycles, 1);
    assert_eq!(info.mem_access, 20);
    // addi zero, a0, 1 leaves the zero register alone
    let inst = matching(0x0015_0013u32);
    let info = execute(&mut regs, &mut cache, inst);
    assert_eq!(regs.get_by_name("zero"), 0);
    assert_eq!(info.mem_access, 1);
}

#[test]
fn stages_advance_and_count() {
    let mut p = Pipeline::new();
    let mut load = ExecuteInfo::default();
    load.load_reg = from_name("a0");
    load.mem_access = 1;
    let mut user = ExecuteInfo::default();
    user.reg_read = [from_name("a0"), from_name("zero")];
    user.exe_cycles = 1;
    let mut branch = ExecuteInfo::default();
    branch.is_branch = true;
    branch.exe_cycles = 3;
    p.single_step(load);
    p.single_step(user);
    p.single_step(branch);
    assert_eq!(p.stats.num_inst, 3);
    assert_eq!(p.stats.num_data_hazard, 0);
    // load reaches the memory stage while its user executes
    p.single_step(ExecuteInfo::default());
    assert_eq!(p.stats.num_data_hazard, 1);
    assert_eq!(p.stats.cycle, 2);
    // the untaken branch reaches the execute stage
    p.single_step(ExecuteInfo::default());
    assert_eq!((p.stats.num_branch, p.stats.num_mis_pred), (1, 1));
    assert_eq!(p.stats.cycle, 2 + 3);
    assert!(p.has_room());
}
