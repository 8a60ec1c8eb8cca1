use corsim0::bitdecode::{bitmatch_lower, bitmatch_upper, check_bitcode_upper, parse_bit};
use corsim0::cpuflag::{add_with_carry, ArmV6m, CalcFlags, IfThenCtrl, IfThenFlags};
use corsim0::debug_info::{b16_fmt, b32_fmt};
use corsim0::instruction::bit_count;

#[test]
fn upper_match_literals_against_top_bits() {
    for x in 0..=255u8 {
        let expected = (x >> 7) & 1 == 1 && (x >> 5) & 1 == 0;
        assert_eq!(bitmatch_upper(&x, "1_0_"), expected);
        assert_eq!(bitmatch_upper(&x, "1x0y"), expected);
    }
    let word: u64 = 0xA000_0000_0000_0000;
    assert!(bitmatch_upper(&word, "1010"));
    assert!(!bitmatch_upper(&word, "1011"));
}

#[test]
fn upper_match_empty_and_all_wildcards() {
    for x in [0u8, 1, 0x7f, 0x80, 0xff] {
        assert!(!bitmatch_upper(&x, ""));
        assert!(bitmatch_upper(&x, "********"));
    }
    for x in [0u32, 0xffff_ffff, 0x1234_5678] {
        assert!(!bitmatch_upper(&x, ""));
        assert!(bitmatch_upper(&x, "________________________________"));
    }
}

#[test]
fn upper_match_longer_than_width_fails() {
    let x: u8 = 0xff;
    assert!(!bitmatch_upper(&x, "111111111"));
}

#[test]
fn lower_match_ignores_width() {
    assert!(bitmatch_lower(&0xABu8, "1011"));
    assert!(bitmatch_lower(&0xFFABu16, "1011"));
    assert!(bitmatch_lower(&0x1234_56ABu32, "1011"));
    assert!(bitmatch_lower(&0xFFFF_FFFF_FFFF_FFABu64, "1011"));
    assert!(!bitmatch_lower(&0xFFFF_FFFF_FFFF_FFACu64, "1011"));
    assert!(!bitmatch_lower(&0xABu8, ""));
}

#[test]
fn guarded_match_exclude_wins() {
    let x: u16 = 0xF000;
    assert!(check_bitcode_upper(&x, "1111", ""));
    assert!(!check_bitcode_upper(&x, "1111", "11110"));
    assert!(!check_bitcode_upper(&x, "1111|0000|****", "0001|1111"));
    assert!(check_bitcode_upper(&x, "0000|1111", "0001"));
    assert!(!check_bitcode_upper(&x, "0000|0001", ""));
}

#[test]
fn capture_four_bytes_of_a_word() {
    let x: u32 = 0x1234_5678;
    let fields = parse_bit(&x, "aaaaaaaabbbbbbbbccccccccdddddddd").unwrap();
    assert_eq!(fields.get('a'), Some(0x12));
    assert_eq!(fields.get('b'), Some(0x34));
    assert_eq!(fields.get('c'), Some(0x56));
    assert_eq!(fields.get('d'), Some(0x78));
}

#[test]
fn capture_interleaved_letters() {
    let x: u8 = 0b0000_1111;
    let fields = parse_bit(&x, "abababab").unwrap();
    assert_eq!(fields.get('a'), Some(0b0011));
    assert_eq!(fields.get('b'), Some(0b0011));
    let y: u8 = 0b1100_1110;
    let fields = parse_bit(&y, "abababab").unwrap();
    assert_eq!(fields.get('a'), Some(0b1011));
    assert_eq!(fields.get('b'), Some(0b1010));
}

#[test]
fn capture_format_of_wrong_length_is_refused() {
    let x: u8 = 0;
    assert_eq!(parse_bit(&x, "aaaa").unwrap_err(), false);
    assert_eq!(parse_bit(&x, "aaaa aaaa a").unwrap_err(), false);
    assert!(parse_bit(&x, "aaaa aaaa").is_ok());
}

#[test]
fn add_with_carry_wraps_to_zero() {
    let r = add_with_carry(0xFFFF_FFFF, 1, 0);
    assert_eq!(r.result, 0);
    assert_eq!(r.z, 1);
    assert_eq!(r.n, 0);
    // The carry is read from bit 16 of the full sum, which is clear here.
    assert_eq!(r.c, 0);
    assert_eq!(r.v, 1);
    assert_eq!(r.apsr, (1 << 30) | (1 << 28));
}

#[test]
fn add_with_carry_signed_overflow() {
    let r = add_with_carry(0x7FFF_FFFF, 1, 0);
    assert_eq!(r.result, 0x8000_0000);
    assert_eq!(r.v, 1);
    assert_eq!(r.n, 1);
    assert_eq!(r.z, 0);
    assert_eq!(r.c, 0);
}

#[test]
fn add_with_carry_carry_from_bit_16() {
    let r = add_with_carry(0x8000, 0x8000, 0);
    assert_eq!(r.result, 0x1_0000);
    assert_eq!(r.c, 1);
    assert_eq!(r.apsr, 1 << 29);
    let s = add_with_carry(10, !3, 1);
    assert_eq!(s.result, 7);
}

#[test]
fn condition_table_exhaustive() {
    let names = [
        "eq", "ne", "cs", "cc", "mi", "pl", "vs", "vc", "hi", "ls", "ge", "lt", "gt", "le", "al",
        "*UNDEFINED*",
    ];
    for flags in 0..16u32 {
        let n = (flags >> 3) & 1 == 1;
        let z = (flags >> 2) & 1 == 1;
        let c = (flags >> 1) & 1 == 1;
        let v = flags & 1 == 1;
        let mut f = ArmV6m::new(0);
        f.n = n as u32;
        f.z = z as u32;
        f.c = c as u32;
        f.v = v as u32;
        let expected = [
            z,
            !z,
            c,
            !c,
            n,
            !n,
            v,
            !v,
            c && !z,
            !c || z,
            n == v,
            n != v,
            !z && n == v,
            z || n != v,
            true,
            false,
        ];
        for code in 0..16u32 {
            let (holds, name) = f.cond(code);
            assert_eq!(holds, expected[code as usize], "code {} flags {:04b}", code, flags);
            assert_eq!(name, names[code as usize]);
            let (high, _) = f.cond(code | 0xF0);
            assert_eq!(high, holds);
        }
    }
}

#[test]
fn apsr_round_trip() {
    for word in [0u32, 0xFFFF_FFFF, 0x8000_0001, 0x5A5A_5A5A, 0x0800_0000] {
        assert_eq!(ArmV6m::new(word).flags_to_apsr(), word);
    }
}

#[test]
fn if_then_block_steps() {
    let mut it = IfThenFlags::new(0, 0xA000);
    assert_eq!(it.cond, 1);
    assert_eq!(it.encode, 0b01001);
    assert!(it.in_it_block());
    assert!(!it.last_in_it_block());
    let (holds, name) = it.cond();
    assert_eq!(name, "cc");
    assert!(holds);
    assert_eq!(it.update_epsr(), 0x0200_4800);
    assert_eq!(it.encode, 0b10010);
    assert_eq!(it.cond, 1);
    it.encode = 0b11000;
    assert!(it.last_in_it_block());
    assert_eq!(it.update_epsr(), 0);
    assert_eq!(it.cond, 0);
    assert_eq!(it.encode, 0);
    assert!(!it.in_it_block());
}

#[test]
fn binary_formatting() {
    assert_eq!(b32_fmt(1), "0000_0000_0000_0000_0000_0000_0000_0001");
    assert_eq!(b32_fmt(0x8000_00F0), "1000_0000_0000_0000_0000_0000_1111_0000");
    assert_eq!(b16_fmt(0xA5F0), "1010_0101_1111_0000");
    assert_eq!(b16_fmt(0), "0000_0000_0000_0000");
}

#[test]
fn bit_count_of_words() {
    assert_eq!(bit_count(0), 0);
    assert_eq!(bit_count(0xF0F0_0001), 9);
    assert_eq!(bit_count(0xFFFF_FFFF), 32);
}

#[test]
fn separators_are_not_bit_positions() {
    let top: u8 = 0x80;
    assert!(bitmatch_upper(&top, "1"));
    assert!(bitmatch_upper(&top, "1|"));
    assert!(bitmatch_upper(&top, "|1|"));
    assert!(bitmatch_upper(&top, "1|0"));
    assert!(!bitmatch_upper(&top, "1|1"));
    let one: u8 = 1;
    assert!(bitmatch_lower(&one, "1"));
    assert!(bitmatch_lower(&one, "1|"));
    assert!(bitmatch_lower(&one, "0 | 1"));
    assert!(!bitmatch_lower(&one, "1|0"));
}

#[test]
fn capture_skips_separators() {
    let x: u8 = 0b1010_0110;
    let fields = parse_bit(&x, "aaaa|bbbb").unwrap();
    assert_eq!(fields.get('a'), Some(0b1010));
    assert_eq!(fields.get('b'), Some(0b0110));
    assert_eq!(fields.get('|'), None);
    assert_eq!(parse_bit(&x, "aaaa|bbb").unwrap_err(), false);
    let fields = parse_bit(&x, "a|b|a|b|a|b|a|b").unwrap();
    assert_eq!(fields.get('a'), Some(0b1101));
    assert_eq!(fields.get('b'), Some(0b0010));
}
