use cachesim::register::{from_name, reg_name, Reg, RegisterFile};

#[test]
fn names_map_to_indices() {
    assert_eq!(from_name("zero").index(), 0);
    assert_eq!(from_name("sp").index(), 2);
    assert_eq!(from_name("a0").index(), 10);
    assert_eq!(from_name("t6").index(), 31);
    assert_eq!(reg_name(8), "s0");
    assert!(!from_name("zero").not_zero());
    assert!(from_name("ra").not_zero());
    assert_eq!(Reg::from(5u32), from_name("t0"));
    assert_eq!(Reg::default(), from_name("zero"));
}

#[test]
fn zero_register_ignores_writes() {
    let mut r = RegisterFile::new();
    r.set_by_name("zero", 9);
    assert_eq!(r.get_by_name("zero"), 0);
    r.set_by_name("a0", 5);
    assert_eq!(r.get_by_name("a0"), 5);
    r.set(from_name("sp"), 0x3f3f3f_fffff);
    assert_eq!(r.get(from_name("sp")), 0x3f3f3f_fffff);
    assert_eq!(r.get_by_name("a1"), 0);
}
