use corsim0::cpuflag::{ArmV6m, CalcFlags, IfThenCtrl, IfThenFlags};

#[test]
fn test_arm_v6_flags_1() {
    let flag: ArmV6m = { ArmV6m::default() };
    println!("{:?}", flag);
    assert_eq!(flag.result, 0);
    assert_eq!(flag.n, 0);
    assert_eq!(flag.z, 0);
    assert_eq!(flag.c, 0);
    assert_eq!(flag.v, 0);
    assert_eq!(flag.q, 0);
    assert_eq!(flag.apsr, 0);
    let flag1: u32 = flag.flags_to_apsr();
    let flag2: u32 = flag.apsr;
    assert_eq!(flag1, flag2);
}

#[test]
fn test_arm_v6_flags_2() {
    let flag: ArmV6m = { ArmV6m::new(0) };
    println!("{:?}", flag);
    assert_eq!(flag.result, 0);
    assert_eq!(flag.n, 0);
    assert_eq!(flag.z, 0);
    assert_eq!(flag.c, 0);
    assert_eq!(flag.v, 0);
    assert_eq!(flag.q, 0);
    assert_eq!(flag.apsr, 0);
    let flag1: u32 = flag.flags_to_apsr();
    let flag2: u32 = flag.apsr;
    assert_eq!(flag1, flag2);
}

#[test]
fn test_arm_v6_flags_3() {
    let test_pattern: u32 = 0b0000011111111111111111111111111;
    let flag: ArmV6m = { ArmV6m::new(test_pattern) };
    println!("{:?}", flag);
    assert_eq!(flag.result, 0);
    assert_eq!(flag.n, 0);
    assert_eq!(flag.z, 0);
    assert_eq!(flag.c, 0);
    assert_eq!(flag.v, 0);
    assert_eq!(flag.q, 0);
    assert_eq!(flag.apsr, test_pattern);
    let flag1: u32 = flag.flags_to_apsr();
    let flag2: u32 = flag.apsr;
    assert_eq!(flag1, flag2);
}

#[test]
fn test_arm_v6_flags_4() {
    let test_pattern: u32 = 0b1 << 31;
    let flag: ArmV6m = { ArmV6m::new(test_pattern) };
    println!("{:?}", flag);
    assert_eq!(flag.result, 0);
    assert_eq!(flag.n, 1);
    assert_eq!(flag.z, 0);
    assert_eq!(flag.c, 0);
    assert_eq!(flag.v, 0);
    assert_eq!(flag.q, 0);
    assert_eq!(flag.apsr, test_pattern);
    let flag1: u32 = flag.flags_to_apsr();
    let flag2: u32 = flag.apsr;
    assert_eq!(flag1, flag2);
}

#[test]
fn test_arm_v6_flags_5() {
    let test_pattern: u32 = 0b1 << 30;
    let flag: ArmV6m = { ArmV6m::new(test_pattern) };
    println!("{:?}", flag);
    assert_eq!(flag.result, 0);
    assert_eq!(flag.n, 0);
    assert_eq!(flag.z, 1);
    assert_eq!(flag.c, 0);
    assert_eq!(flag.v, 0);
    assert_eq!(flag.q, 0);
    assert_eq!(flag.apsr, test_pattern);
    let flag1: u32 = flag.flags_to_apsr();
    let flag2: u32 = flag.apsr;
    assert_eq!(flag1, flag2);
}

#[test]
fn test_arm_v6_flags_6() {
    let test_pattern: u32 = 0b1 << 29;
    let flag: ArmV6m = { ArmV6m::new(test_pattern) };
    println!("{:?}", flag);
    assert_eq!(flag.result, 0);
    assert_eq!(flag.n, 0);
    assert_eq!(flag.z, 0);
    assert_eq!(flag.c, 1);
    assert_eq!(flag.v, 0);
    assert_eq!(flag.q, 0);
    assert_eq!(flag.apsr, test_pattern);
    let flag1: u32 = flag.flags_to_apsr();
    let flag2: u32 = flag.apsr;
    assert_eq!(flag1, flag2);
}

#[test]
fn test_arm_v6_flags_7() {
    let test_pattern: u32 = 0b1 << 28;
    let flag: ArmV6m = { ArmV6m::new(test_pattern) };
    println!("{:?}", flag);
    assert_eq!(flag.result, 0);
    assert_eq!(flag.n, 0);
    assert_eq!(flag.z, 0);
    assert_eq!(flag.c, 0);
    assert_eq!(flag.v, 1);
    assert_eq!(flag.q, 0);
    assert_eq!(flag.apsr, test_pattern);
    let flag1: u32 = flag.flags_to_apsr();
    let flag2: u32 = flag.apsr;
    assert_eq!(flag1, flag2);
}

#[test]
fn test_arm_v6_flags_8() {
    let test_pattern: u32 = 0b1 << 27;
    let flag: ArmV6m = { ArmV6m::new(test_pattern) };
    println!("{:?}", flag);
    assert_eq!(flag.result, 0);
    assert_eq!(flag.n, 0);
    assert_eq!(flag.z, 0);
    assert_eq!(flag.c, 0);
    assert_eq!(flag.v, 0);
    assert_eq!(flag.q, 1);
    assert_eq!(flag.apsr, test_pattern);
    let flag1: u32 = flag.flags_to_apsr();
    let flag2: u32 = flag.apsr;
    assert_eq!(flag1, flag2);
}

#[test]
fn test_arm_v6_cond_1() {
    let flag: ArmV6m = { ArmV6m::new(0) };
    let (_, cond_str) = flag.cond(0b0000);
    assert_eq!(cond_str, "eq");
    let (_, cond_str) = flag.cond(0b0001);
    assert_eq!(cond_str, "ne");
    let (_, cond_str) = flag.cond(0b0010);
    assert_eq!(cond_str, "cs");
    let (_, cond_str) = flag.cond(0b0011);
    assert_eq!(cond_str, "cc");
    let (_, cond_str) = flag.cond(0b0100);
    assert_eq!(cond_str, "mi");
    let (_, cond_str) = flag.cond(0b0101);
    assert_eq!(cond_str, "pl");
    let (_, cond_str) = flag.cond(0b0110);
    assert_eq!(cond_str, "vs");
    let (_, cond_str) = flag.cond(0b0111);
    assert_eq!(cond_str, "vc");
    let (_, cond_str) = flag.cond(0b1000);
    assert_eq!(cond_str, "hi");
    let (_, cond_str) = flag.cond(0b1001);
    assert_eq!(cond_str, "ls");
    let (_, cond_str) = flag.cond(0b1010);
    assert_eq!(cond_str, "ge");
    let (_, cond_str) = flag.cond(0b1011);
    assert_eq!(cond_str, "lt");
    let (_, cond_str) = flag.cond(0b1100);
    assert_eq!(cond_str, "gt");
    let (_, cond_str) = flag.cond(0b1101);
    assert_eq!(cond_str, "le");
    let (_, cond_str) = flag.cond(0b1110);
    assert_eq!(cond_str, "al");
    let (_, cond_str) = flag.cond(0b1111);
    assert_eq!(cond_str, "*UNDEFINED*");
}

#[test]
fn test_arm_v6_cond_2() {
    let test_cond: u32 = 0b0010;
    let test_not_cond: u32 = &test_cond | 1;
    let mut flag: ArmV6m = { ArmV6m::new(0) };
    flag.c = 0;
    let (tf, _) = flag.cond(test_cond);
    assert_eq!(tf, false);
    let (tf, _) = flag.cond(test_not_cond);
    assert_eq!(tf, true);
    flag.c = 1;
    let (tf, _) = flag.cond(test_cond);
    assert_eq!(tf, true);
    let (tf, _) = flag.cond(test_not_cond);
    assert_eq!(tf, false);
}

#[test]
fn test_arm_v6_cond_4() {
    let test_cond: u32 = 0b0100;
    let test_not_cond: u32 = &test_cond | 1;
    let mut flag: ArmV6m = { ArmV6m::new(0) };
    flag.n = 0;
    let (tf, _) = flag.cond(test_cond);
    assert_eq!(tf, false);
    let (tf, _) = flag.cond(test_not_cond);
    assert_eq!(tf, true);
    flag.n = 1;
    let (tf, _) = flag.cond(test_cond);
    assert_eq!(tf, true);
    let (tf, _) = flag.cond(test_not_cond);
    assert_eq!(tf, false);
}

#[test]
fn test_arm_v6_cond_5() {
    let test_cond: u32 = 0b0110;
    let test_not_cond: u32 = &test_cond | 1;
    let mut flag: ArmV6m = { ArmV6m::new(0) };
    flag.v = 0;
    let (tf, _) = flag.cond(test_cond);
    assert_eq!(tf, false);
    let (tf, _) = flag.cond(test_not_cond);
    assert_eq!(tf, true);
    flag.v = 1;
    let (tf, _) = flag.cond(test_cond);
    assert_eq!(tf, true);
    let (tf, _) = flag.cond(test_not_cond);
    assert_eq!(tf, false);
}

#[test]
fn test_arm_v6_cond_3() {
    let test_cond: u32 = 0;
    let test_not_cond: u32 = &test_cond | 1;
    let mut flag: ArmV6m = { ArmV6m::new(0) };
    flag.z = 0;
    let (tf, _) = flag.cond(test_cond);
    assert_eq!(tf, false);
    let (tf, _) = flag.cond(test_not_cond);
    assert_eq!(tf, true);
    flag.z = 1;
    let (tf, _) = flag.cond(test_cond);
    assert_eq!(tf, true);
    let (tf, _) = flag.cond(test_not_cond);
    assert_eq!(tf, false);
}

#[test]
fn test_if_then_1() {
    let if_then: IfThenFlags = { IfThenFlags::default() };
    assert_eq!(if_then.cond, 0);
    assert_eq!(if_then.encode, 0);
    assert_eq!(if_then.epsr, 0);

    assert_eq!(if_then.flags.result, 0);
    assert_eq!(if_then.flags.n, 0);
    assert_eq!(if_then.flags.z, 0);
    assert_eq!(if_then.flags.c, 0);
    assert_eq!(if_then.flags.v, 0);
    assert_eq!(if_then.flags.q, 0);
    assert_eq!(if_then.flags.apsr, 0);
    let flag1: u32 = if_then.flags.flags_to_apsr();
    let flag2: u32 = if_then.flags.apsr;
    assert_eq!(flag1, flag2);
}

#[test]
fn test_if_then_2() {
    let if_then: IfThenFlags = { IfThenFlags::new(0, 0) };
    assert_eq!(if_then.cond, 0);
    assert_eq!(if_then.encode, 0);
    assert_eq!(if_then.epsr, 0);
}
