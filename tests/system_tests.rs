use corsim0::cpu::{M0System, SystemCtrl};
use corsim0::device::{
    BusError, DeviceAccess, DeviceMapping, MemoryMappedDevice, SystemMap, SystemMapAccess,
};

const RAMADDR: u32 = 0x1000_0000;

fn device(name: &str, adrs: u32, size: usize, writable: bool) -> MemoryMappedDevice {
    MemoryMappedDevice {
        name: name.to_string(),
        data: vec![0; size],
        mapping: DeviceMapping { adrs, size },
        readable: true,
        writable,
    }
}

/// A ROM at 0 with the reset vector and the given halfwords from 0x10, and a RAM.
fn system_with_code(code: &[u16]) -> M0System {
    let mut rom = device("ROM", 0, 0x2000, false);
    rom.data[0..4].copy_from_slice(&0x1000_0100u32.to_le_bytes());
    rom.data[4..8].copy_from_slice(&0x0000_0011u32.to_le_bytes());
    for (i, hw) in code.iter().enumerate() {
        let at = 0x10 + 2 * i;
        rom.data[at..at + 2].copy_from_slice(&hw.to_le_bytes());
    }
    let ram = device("RAM", RAMADDR, 0x200, true);
    let mut map = SystemMap { map: Vec::new() };
    map.register_device(rom);
    map.register_device(ram);
    let mut system = M0System::new(map);
    system.reset();
    system
}

#[test]
fn reset_then_nop() {
    let mut system = system_with_code(&[0xBF00]);
    assert_eq!(system.cpu.pc, 0x10);
    assert_eq!(system.cpu.sp[0], 0x1000_0100);
    assert_eq!(system.cpu.cpuid, 0x410c_c200);
    assert_eq!(system.cpu.ccr, 0xffff_ffff);
    assert_eq!(system.execute(), 1);
    assert_eq!(system.cpu.pc, 0x12);
    assert_eq!(system.cpu.sp[0], 0x1000_0100);
}

#[test]
fn push_three_registers() {
    // push {r0, r3, r5}
    let mut system = system_with_code(&[0xB429]);
    system.cpu.r[0] = 0xA0;
    system.cpu.r[3] = 0xA3;
    system.cpu.r[5] = 0xA5;
    assert_eq!(system.execute(), 1);
    let sp = system.cpu.sp[0];
    assert_eq!(sp, 0x1000_0100 - 12);
    assert_eq!(system.system_map.read32(sp), Ok(0xA0));
    assert_eq!(system.system_map.read32(sp + 4), Ok(0xA3));
    assert_eq!(system.system_map.read32(sp + 8), Ok(0xA5));
    assert_eq!(system.cpu.pc, 0x12);
}

#[test]
fn push_empty_list_halts() {
    let mut system = system_with_code(&[0xB400]);
    assert_eq!(system.execute(), 0);
    assert_eq!(system.cpu.sp[0], 0x1000_0100);
    assert_eq!(system.cpu.pc, 0x10);
}

#[test]
fn branch_with_link_forward() {
    let mut system = system_with_code(&[]);
    let mut rom = system.system_map.map.remove(0);
    rom.data[0x1000..0x1002].copy_from_slice(&0xF000u16.to_le_bytes());
    rom.data[0x1002..0x1004].copy_from_slice(&0xF804u16.to_le_bytes());
    system.system_map.map.insert(0, rom);
    system.cpu.pc = 0x1000;
    assert_eq!(system.execute(), 1);
    assert_eq!(system.cpu.pc, 0x100C);
    assert_eq!(system.cpu.lr, 0x1005);
}

#[test]
fn branch_32_backward() {
    let mut system = system_with_code(&[]);
    let mut rom = system.system_map.map.remove(0);
    // b.w with offset -8: S = 1, J1 = J2 = 1, imm10 = 0x3ff, imm11 = 0x7fc
    rom.data[0x1000..0x1002].copy_from_slice(&0xF7FFu16.to_le_bytes());
    rom.data[0x1002..0x1004].copy_from_slice(&0xBFFCu16.to_le_bytes());
    system.system_map.map.insert(0, rom);
    system.cpu.pc = 0x1000;
    system.cpu.lr = 0x77;
    assert_eq!(system.execute(), 1);
    assert_eq!(system.cpu.pc, 0x1004 - 8);
    assert_eq!(system.cpu.lr, 0x77);
}

#[test]
fn branch_16_backward() {
    // b with imm11 = 0x7fe: offset -4 from the next instruction
    let mut system = system_with_code(&[0xE7FE]);
    assert_eq!(system.execute(), 1);
    assert_eq!(system.cpu.pc, 0x0E);
}

#[test]
fn branch_exchange_clears_bit_zero() {
    // bx lr
    let mut system = system_with_code(&[0x4770]);
    system.cpu.lr = 0x2001;
    assert_eq!(system.execute(), 1);
    assert_eq!(system.cpu.pc, 0x2000);
    // bx pc only moves past the instruction
    let mut system = system_with_code(&[0x4778]);
    assert_eq!(system.execute(), 1);
    assert_eq!(system.cpu.pc, 0x12);
    // bx sp reads the active stack pointer
    let mut system = system_with_code(&[0x4768]);
    assert_eq!(system.execute(), 1);
    assert_eq!(system.cpu.pc, 0x1000_0100);
}

#[test]
fn load_literal_word() {
    // ldr r2, [pc, #4]: reads the word at 0x14
    let mut system = system_with_code(&[0x4A01, 0xBF00, 0x5678, 0x1234]);
    assert_eq!(system.execute(), 1);
    assert_eq!(system.cpu.r[2], 0x1234_5678);
    assert_eq!(system.cpu.pc, 0x12);
}

#[test]
fn load_literal_unreadable_halts() {
    let mut system = system_with_code(&[0x4A01]);
    system.system_map.map[0].readable = false;
    let before_pc = system.cpu.pc;
    assert_eq!(system.execute(), 0);
    assert_eq!(system.cpu.pc, before_pc);
}

#[test]
fn add_sp_immediate_and_adjust() {
    // add r1, sp, #8
    let mut system = system_with_code(&[0xA902, 0xB082, 0xB004]);
    assert_eq!(system.execute(), 1);
    assert_eq!(system.cpu.r[1], 0x1000_0108);
    assert_eq!(system.cpu.apsr, 0);
    // sub sp, #8
    assert_eq!(system.execute(), 1);
    assert_eq!(system.cpu.sp[0], 0x1000_00F8);
    // add sp, #16
    assert_eq!(system.execute(), 1);
    assert_eq!(system.cpu.sp[0], 0x1000_0108);
    assert_eq!(system.cpu.pc, 0x16);
}

#[test]
fn unspecified_groups_halt() {
    // movs r0, #0; wfi; svc; a 32-bit data-processing word
    for code in [[0x2000u16, 0], [0xBF30, 0], [0xDF00, 0], [0xEA4F, 0x0000]] {
        let mut system = system_with_code(&code);
        system.cpu.r[0] = 5;
        assert_eq!(system.execute(), 0);
        assert_eq!(system.cpu.pc, 0x10);
        assert_eq!(system.cpu.r[0], 5);
    }
}

#[test]
fn fetch_from_nowhere_halts() {
    let mut system = system_with_code(&[]);
    system.cpu.pc = 0x2000_0000;
    assert_eq!(system.execute(), 0);
    assert_eq!(system.cpu.pc, 0x2000_0000);
}

#[test]
fn dump_snapshot() {
    let mut system = system_with_code(&[]);
    system.cpu.r[12] = 7;
    system.cpu.ctrl_spsel = 1;
    let snapshot = system.dump();
    assert_eq!(snapshot.r[12], 7);
    assert_eq!(snapshot.msp, 0x1000_0100);
    assert!(snapshot.psp_active);
    assert_eq!(snapshot.pc, 0x10);
}

#[test]
fn crossing_write_is_ignored_and_read_denied() {
    let mut map = SystemMap { map: Vec::new() };
    map.register_device(device("RAM", RAMADDR, 128, true));
    let adrs = RAMADDR + 126;
    map.write32(adrs, 0xDEAD_BEEF);
    assert!(map.map[0].data.iter().all(|b| *b == 0));
    assert_eq!(map.read32(adrs), Err(BusError::AccessDenied));
    map.write16(adrs, 0xBEEF);
    assert_eq!(map.read16(adrs), Ok(0xBEEF));
    assert_eq!(map.read8(adrs + 1), Ok(0xBE));
}

#[test]
fn unmapped_and_denied_reads() {
    let mut map = SystemMap { map: Vec::new() };
    let mut rom = device("ROM", 0, 16, false);
    rom.readable = false;
    map.register_device(rom);
    assert_eq!(map.read8(0x20), Err(BusError::NoDevice));
    assert_eq!(map.read8(0), Err(BusError::AccessDenied));
    map.write8(0x20, 1);
    assert_eq!(map.get_device(0x20), None);
}

#[test]
fn first_registered_device_wins() {
    let mut map = SystemMap { map: Vec::new() };
    let mut low = device("LOW", 0, 16, true);
    low.data[8] = 0x11;
    let mut high = device("HIGH", 8, 16, true);
    high.data[0] = 0x22;
    map.register_device(low);
    map.register_device(high);
    assert_eq!(map.get_device(8), Some(0));
    assert_eq!(map.get_device(16), Some(1));
    assert_eq!(map.read8(8), Ok(0x11));
    map.write32(0x10, 0x0403_0201);
    assert_eq!(map.read32(0x10), Ok(0x0403_0201));
    assert_eq!(map.map[1].data[8..12], [1, 2, 3, 4]);
}


#[test]
fn memory_hint_runs_as_32_bit_nop() {
    // Rt = 15, op1 = 00, op2 = 000000, Rn = r0: an unallocated hint
    let mut system = system_with_code(&[0xF830, 0xF000]);
    assert_eq!(system.execute(), 1);
    assert_eq!(system.cpu.pc, 0x14);
    // with Rn = 15 the same group halts
    let mut system = system_with_code(&[0xF83F, 0xF000]);
    assert_eq!(system.execute(), 0);
    assert_eq!(system.cpu.pc, 0x10);
    // a halfword load is left unspecified
    let mut system = system_with_code(&[0xF83F, 0x1000]);
    assert_eq!(system.execute(), 0);
    assert_eq!(system.cpu.pc, 0x10);
}

#[test]
fn second_halfword_out_of_reach_halts() {
    let mut rom = device("ROM", 0, 0x12, false);
    rom.data[0..4].copy_from_slice(&0x1000_0100u32.to_le_bytes());
    rom.data[4..8].copy_from_slice(&0x0000_0010u32.to_le_bytes());
    rom.data[0x10..0x12].copy_from_slice(&0xF000u16.to_le_bytes());
    let mut map = SystemMap { map: Vec::new() };
    map.register_device(rom);
    let mut system = M0System::new(map);
    system.reset();
    assert_eq!(system.execute(), 0);
    assert_eq!(system.cpu.pc, 0x10);
}

#[test]
fn device_range_accessors() {
    let mut dev = device("RAM", 0x100, 8, true);
    assert_eq!(dev.get_range(), DeviceMapping { adrs: 0x100, size: 8 });
    assert!(dev.is_mapped(0x107));
    assert!(!dev.is_mapped(0x108));
    assert!(!dev.is_mapped(0xFF));
    dev.write32(0x104, 0x0A0B_0C0D);
    assert_eq!(dev.read32(0x104), Some(0x0A0B_0C0D));
    assert_eq!(dev.read16(0x106), Some(0x0A0B));
    assert_eq!(dev.read8(0x104), Some(0x0D));
    assert_eq!(dev.read32(0x105), None);
    dev.set_range(DeviceMapping { adrs: 0x200, size: 8 });
    assert_eq!(dev.read8(0x204), Some(0x0D));
    assert_eq!(dev.read8(0x104), None);
}
