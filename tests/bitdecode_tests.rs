use corsim0::bitdecode::{bitmatch_lower, bitmatch_upper, check_bitcode_upper, parse_bit, NO_COND};

#[test]
fn test_bitmach_16_1() {
    let bitcode: u16 = 0b1;
    assert_eq!(bitmatch_upper(&bitcode, "_______________1"), true);
    assert_eq!(bitmatch_upper(&bitcode, "____ ____ ____ ___1"), true);
    assert_eq!(bitmatch_upper(&bitcode, "_ _ _ _ _ _ _ _ _ _ _ _ _ _ _1"), true);
    assert_eq!(
        bitmatch_upper(&bitcode, "  _   _   _   _   _   _   _   _   _   _   _   _   _   _ _  1"),
        true
    );
    assert_eq!(
        bitmatch_upper(
            &bitcode,
            "  _   _   _   _   _   _   _   _   _   _   _   _   _   _ _  1    "
        ),
        true
    );
    assert_eq!(bitmatch_upper(&bitcode, "_______________0"), false);
    assert_eq!(bitmatch_upper(&bitcode, "________________"), true);

    for i in 1..16 {
        assert_eq!(bitmatch_upper(&(bitcode << i), "_______________1"), false);
        assert_eq!(bitmatch_upper(&(bitcode << i), "_______________0"), true);
        assert_eq!(bitmatch_upper(&(bitcode << i), "________________"), true);
    }
}

#[test]
fn test_bitmach_16_2() {
    let bitcode: u16 = 0b1111111111111111;
    assert_eq!(bitmatch_upper(&bitcode, "1111111111111111"), true);
    assert_eq!(bitmatch_upper(&bitcode, "0000000000000000"), false);

    assert_eq!(bitmatch_upper(&bitcode, "1_1_1_1_1_1_1_1_"), true);
    assert_eq!(bitmatch_upper(&bitcode, "0_0_0_0_0_0_0_0_"), false);

    let bitcode: u16 = 0b0101010101010101;
    assert_eq!(bitmatch_upper(&bitcode, "1_1_1_1_1_1_1_1_"), false);
    assert_eq!(bitmatch_upper(&bitcode, "0_0_0_0_0_0_0_0_"), true);

    let bitcode_s: u16 = bitcode << 1;
    assert_eq!(bitmatch_upper(&bitcode_s, "1_1_1_1_1_1_1_1_"), true);
    assert_eq!(bitmatch_upper(&bitcode_s, "0_0_0_0_0_0_0_0_"), false);

    let bitcode_s: u16 = bitcode << 8;
    assert_eq!(bitmatch_upper(&bitcode_s, "1_1_1_1_________"), false);
    assert_eq!(bitmatch_upper(&bitcode_s, "0_0_0_0_________"), true);

    let bitcode_s: u16 = bitcode << 9;
    assert_eq!(bitmatch_upper(&bitcode_s, "1_1_1_1_________"), true);
    assert_eq!(bitmatch_upper(&bitcode_s, "0_0_0_0_________"), false);
}

#[test]
fn test_bitmach_16_3() {
    let bitcode: u16 = 0b1111111100000000;
    assert_eq!(bitmatch_upper(&bitcode, "11111111"), true);
    assert_eq!(bitmatch_lower(&bitcode, "11111111"), false);
    assert_eq!(bitmatch_upper(&bitcode, "00000000"), false);
    assert_eq!(bitmatch_lower(&bitcode, "00000000"), true);
}

#[test]
fn test_bitmach_32_1() {
    let bitcode: u32 = 0b1;
    assert_eq!(bitmatch_upper(&bitcode, "_______________________________1"), true);
    assert_eq!(bitmatch_upper(&bitcode, "_______________________________0"), false);
    assert_eq!(bitmatch_upper(&bitcode, "________________________________"), true);

    for i in 1..32 {
        assert_eq!(bitmatch_upper(&(bitcode << i), "_______________________________1"), false);
        assert_eq!(bitmatch_upper(&(bitcode << i), "_______________________________0"), true);
        assert_eq!(bitmatch_upper(&(bitcode << i), "________________________________"), true);
    }
}

#[test]
fn test_bitmach_32_2() {
    let bitcode: u32 = 0b11111111111111110000000000000000;
    assert_eq!(bitmatch_upper(&bitcode, "1111111111111111"), true);
    assert_eq!(bitmatch_upper(&bitcode, "0000000000000000"), false);

    assert_eq!(bitmatch_upper(&bitcode, "1_1_1_1_1_1_1_1_"), true);
    assert_eq!(bitmatch_upper(&bitcode, "0_0_0_0_0_0_0_0_"), false);

    let bitcode: u32 = 0b01010101010101010000000000000000;
    assert_eq!(bitmatch_upper(&bitcode, "1_1_1_1_1_1_1_1_"), false);
    assert_eq!(bitmatch_upper(&bitcode, "0_0_0_0_0_0_0_0_"), true);
    assert_eq!(bitmatch_upper(&(bitcode << 1), "1_1_1_1_1_1_1_1_"), true);
    assert_eq!(bitmatch_upper(&(bitcode << 1), "0_0_0_0_0_0_0_0_"), false);
    assert_eq!(bitmatch_upper(&(bitcode << 8), "1_1_1_1_________"), false);
    assert_eq!(bitmatch_upper(&(bitcode << 8), "0_0_0_0_________"), true);
    assert_eq!(bitmatch_upper(&(bitcode << 9), "1_1_1_1_________"), true);
    assert_eq!(bitmatch_upper(&(bitcode << 9), "0_0_0_0_________"), false);
}

#[test]
fn test_bitmach_32_3() {
    let bitcode: u32 = 0b11111111101010100101010100000000;
    assert_eq!(bitmatch_upper(&bitcode, "11111111"), true);
    assert_eq!(bitmatch_lower(&bitcode, "11111111"), false);
    assert_eq!(bitmatch_upper(&bitcode, "00000000"), false);
    assert_eq!(bitmatch_lower(&bitcode, "00000000"), true);
}

#[test]
fn test_check_bitcode_upper_1() {
    let bitcode: u32 = 0b11111111101010100101010100000000;
    assert_eq!(check_bitcode_upper(&bitcode, "11111111", ""), true);
    assert_eq!(check_bitcode_upper(&bitcode, "11111111", NO_COND), true);
    assert_eq!(check_bitcode_upper(&bitcode, "11111111", "1111111111"), true);
    assert_eq!(check_bitcode_upper(&bitcode, "11111111", "0000000000"), true);
    assert_eq!(check_bitcode_upper(&bitcode, "11111111", "1111111111|0000000000"), true);
    assert_eq!(check_bitcode_upper(&bitcode, "11111111", "11111111 11|00000000 00"), true);
    assert_eq!(check_bitcode_upper(&bitcode, "11111111", "1111111110"), false);
    assert_eq!(
        check_bitcode_upper(&bitcode, "11111111", "11111111 11|00000000 00|11111111 10"),
        false
    );
    assert_eq!(
        check_bitcode_upper(&bitcode, "11111111", "  11111111 11|00000000 00|11111111 10  "),
        false
    );
}

#[test]
fn test_parse_bit_1() {
    let bitcode: u32 = 0b11111111101010100101010100000000;
    match parse_bit(&bitcode, "aaaaaaaabbbbbbbbccccccccdddddddd") {
        Ok(capture) => {
            println!("{:?}", capture);
            assert_eq!(capture.get('a').unwrap(), 0b11111111);
            assert_eq!(capture.get('b').unwrap(), 0b10101010);
            assert_eq!(capture.get('c').unwrap(), 0b01010101);
            assert_eq!(capture.get('d').unwrap(), 0b00000000);
            assert_eq!(capture.get('e'), None);
        }
        Err(e) => {
            assert_eq!(e, true);
        }
    }
}

#[test]
fn test_parse_bit_2() {
    let bitcode: u16 = 0b1111111100000000;
    match parse_bit(&bitcode, "aaaaaaaadddddddd") {
        Ok(capture) => {
            println!("{:?}", capture);
            assert_eq!(capture.get('a').unwrap(), 0b11111111);
            assert_eq!(capture.get('b'), None);
            assert_eq!(capture.get('c'), None);
            assert_eq!(capture.get('d').unwrap(), 0b00000000);
            assert_eq!(capture.get('e'), None);
        }
        Err(e) => {
            assert_eq!(e, true);
        }
    }
}

#[test]
fn test_parse_bit_3() {
    let bitcode: u8 = 0b00001111;
    match parse_bit(&bitcode, "____aaaa") {
        Ok(capture) => {
            println!("{:?}", capture);
            assert_eq!(capture.get('a').unwrap(), 0b1111);
            assert_eq!(capture.get('b'), None);
            assert_eq!(capture.get('_'), None);
        }
        Err(e) => {
            assert_eq!(e, true);
        }
    }
}

#[test]
fn test_parse_bit_4() {
    let bitcode: u8 = 0b00001111;
    match parse_bit(&bitcode, "abababab") {
        Ok(capture) => {
            println!("{:?}", capture);
            assert_eq!(capture.get('a').unwrap(), 0b0011);
            assert_eq!(capture.get('b'), Some(0b0011));
            assert_eq!(capture.get('_'), None);
        }
        Err(e) => {
            assert_eq!(e, true);
        }
    }
}

#[test]
fn test_parse_bit_5() {
    let bitcode: u8 = 0b11001110;
    match parse_bit(&bitcode, "aa bb ccc b") {
        Ok(capture) => {
            println!("{:?}", capture);
            assert_eq!(capture.get('a').unwrap(), 0b11);
            assert_eq!(capture.get('b'), Some(0b000));
            assert_eq!(capture.get('c'), Some(0b111));
        }
        Err(e) => {
            assert_eq!(e, true);
        }
    }

    match parse_bit(&bitcode, "aaaabbbb") {
        Ok(capture) => {
            println!("{:?}", capture);
            assert_eq!(capture.get('a').unwrap(), 0b1100);
            assert_eq!(capture.get('b'), Some(0b1110));
        }
        Err(e) => {
            assert_eq!(e, true);
        }
    }

    let capture = parse_bit(&bitcode, "aaaabbbb").unwrap();
    assert_eq!(capture.get('a').unwrap(), 0b1100);
    assert_eq!(capture.get('b'), Some(0b1110));
}
