use crate::bitdecode::{bitmatch_lower, check_bitcode_upper, guarded_match, lower_match};
use crate::cpuflag::{add_with_carry, add_with_carry_apsr, add_with_carry_spec, CalcFlags};
use crate::device::{bus_read16, bus_read32, SystemMap, SystemMapAccess};
use crate::instruction::{
    add_wrapping, b16_offset, b_16, b_32, bkpt, bl_32, branch32_offset, bx, bx_target, cbnz, cbz,
    cpu_yield, dbg, halted, it, moved_pc, nop, nop_32, not_impremented, pop, push, push_post, sev,
    unpredicable, wfe, wfi,
};
use vstd::prelude::*;

verus! {

/// The Cortex-M0 register file and system-control registers.
pub struct CortexM0 {
    pub r: [u32; 13],
    pub sp: [u32; 2],
    pub lr: u32,
    pub pc: u32,
    pub ctrl_spsel: usize,
    pub ctrl_npriv: usize,
    pub primask_pm: usize,
    pub apsr: u32,
    pub ipsr: u32,
    pub epsr: u32,
    pub actlr: u32,
    pub cpuid: u32,
    pub icsr: u32,
    pub vtor: u32,
    pub aircr: u32,
    pub scr: u32,
    pub ccr: u32,
    pub shpr2: u32,
    pub shpr3: u32,
    pub shcsr: u32,
    pub dfsr: u32,
}

/// The fixed CPUID of the modelled core.
pub const CPUID: u32 = 0x410c_c200;

/// The architectural defaults: CPUID fixed, CCR all ones, everything else zero.
pub open spec fn is_default_cpu(c: CortexM0) -> bool {
    &&& c.sp@ == seq![0u32, 0u32]
    &&& c.pc == 0
    &&& defaults_besides_sp_pc(c)
}

/// The defaults of every register but the stack pointers and the program counter.
pub open spec fn defaults_besides_sp_pc(c: CortexM0) -> bool {
    &&& c.r@ == Seq::new(13, |i: int| 0u32)
    &&& c.lr == 0
    &&& c.ctrl_spsel == 0 && c.ctrl_npriv == 0 && c.primask_pm == 0
    &&& c.apsr == 0 && c.ipsr == 0 && c.epsr == 0
    &&& c.actlr == 0 && c.cpuid == CPUID && c.icsr == 0 && c.vtor == 0
    &&& c.aircr == 0 && c.scr == 0 && c.ccr == 0xffff_ffff
    &&& c.shpr2 == 0 && c.shpr3 == 0 && c.shcsr == 0 && c.dfsr == 0
}

impl Default for CortexM0 {
    fn default() -> (r: Self)
        ensures
            is_default_cpu(r),
    {
        let r = CortexM0 {
            r: [0u32; 13],
            sp: [0u32; 2],
            lr: 0,
            pc: 0,
            ctrl_spsel: 0,
            ctrl_npriv: 0,
            primask_pm: 0,
            apsr: 0,
            ipsr: 0,
            epsr: 0,
            actlr: 0,
            cpuid: CPUID,
            icsr: 0,
            vtor: 0,
            aircr: 0,
            scr: 0,
            ccr: 0xffff_ffff,
            shpr2: 0,
            shpr3: 0,
            shcsr: 0,
            dfsr: 0,
        };
        assert(r.r@ =~= Seq::new(13, |i: int| 0u32));
        assert(r.sp@ =~= seq![0u32, 0u32]);
        r
    }
}

/// Which banked stack pointer is active: the process one when the control bit is set.
pub open spec fn sp_index(c: CortexM0) -> int {
    if c.ctrl_spsel == 0 {
        0
    } else {
        1
    }
}

pub open spec fn active_sp(c: CortexM0) -> u32 {
    c.sp@[sp_index(c)]
}

/// Register `n` as an instruction reads it: 13 is the active stack pointer,
/// 14 the link register, 15 the program counter.
pub open spec fn reg_value(c: CortexM0, n: int) -> u32 {
    if n == 13 {
        active_sp(c)
    } else if n == 14 {
        c.lr
    } else if n == 15 {
        c.pc
    } else {
        c.r@[n]
    }
}

/// `a + b` on 32 bits, wrapping.
pub open spec fn add32(a: u32, b: int) -> u32 {
    ((a as int + b) % 0x1_0000_0000) as u32
}

/// The index of the active stack pointer.
pub fn active_sp_index(cpu: &CortexM0) -> (r: usize)
    ensures
        r as int == sp_index(*cpu),
{
    if cpu.ctrl_spsel == 0 {
        0
    } else {
        1
    }
}

/// Reads register `n` (0 to 15) with the special meaning of 13, 14 and 15.
pub fn read_reg(cpu: &CortexM0, n: usize) -> (r: u32)
    requires
        n < 16,
    ensures
        r == reg_value(*cpu, n as int),
{
    if n == 13 {
        cpu.sp[active_sp_index(cpu)]
    } else if n == 14 {
        cpu.lr
    } else if n == 15 {
        cpu.pc
    } else {
        cpu.r[n]
    }
}

/// A processor wired to its memory bus.
pub struct M0System {
    pub cpu: CortexM0,
    pub system_map: SystemMap,
}

impl M0System {
    /// A system in the architectural default state on the given bus.
    pub fn new(system_map: SystemMap) -> (r: M0System)
        ensures
            is_default_cpu(r.cpu),
            r.system_map == system_map,
    {
        M0System { cpu: CortexM0::default(), system_map }
    }
}

/// A read-only copy of the registers, for display.
pub struct RegisterDump {
    pub r: [u32; 13],
    pub msp: u32,
    pub psp: u32,
    pub psp_active: bool,
    pub lr: u32,
    pub pc: u32,
    pub apsr: u32,
    pub ipsr: u32,
    pub epsr: u32,
}

/// Control of a processor: reset, a register snapshot, and one step.
pub trait SystemCtrl {
    /// Both words of the reset vector can be read.
    spec fn reset_vector_readable(&self) -> bool;

    fn reset(&mut self)
        requires
            old(self).reset_vector_readable(),
    ;

    fn dump(&self) -> RegisterDump;

    fn execute(&mut self) -> u32;
}

impl SystemCtrl for M0System {
    open spec fn reset_vector_readable(&self) -> bool {
        bus_read32(self.system_map.map@, 0) is Ok && bus_read32(self.system_map.map@, 4) is Ok
    }

    /// Restores the defaults, then loads the active stack pointer from the
    /// word at VTOR and the program counter from the word after it.
    fn reset(&mut self)
        ensures
            final(self).system_map == old(self).system_map,
            final(self).cpu.sp@ == seq![
                bus_read32(old(self).system_map.map@, 0)->Ok_0 & 0xffff_fffcu32,
                0u32,
            ],
            final(self).cpu.pc == bus_read32(old(self).system_map.map@, 4)->Ok_0 & 0xffff_fffeu32,
            defaults_besides_sp_pc(final(self).cpu),
    {
        self.cpu = CortexM0::default();
        let index = active_sp_index(&self.cpu);
        let vtor = self.cpu.vtor;
        let stack = match self.system_map.read32(vtor) {
            Ok(word) => word,
            Err(_) => 0,
        };
        let entry = match self.system_map.read32(vtor + 4) {
            Ok(word) => word,
            Err(_) => 0,
        };
        self.cpu.sp[index] = stack & 0xffff_fffcu32;
        self.cpu.pc = entry & 0xffff_fffeu32;
    }

    /// A snapshot of the registers.
    fn dump(&self) -> (r: RegisterDump)
        ensures
            r.r@ == self.cpu.r@,
            r.msp == self.cpu.sp@[0],
            r.psp == self.cpu.sp@[1],
            r.psp_active == (self.cpu.ctrl_spsel != 0),
            r.lr == self.cpu.lr,
            r.pc == self.cpu.pc,
            r.apsr == self.cpu.apsr,
            r.ipsr == self.cpu.ipsr,
            r.epsr == self.cpu.epsr,
    {
        RegisterDump {
            r: self.cpu.r,
            msp: self.cpu.sp[0],
            psp: self.cpu.sp[1],
            psp_active: self.cpu.ctrl_spsel != 0,
            lr: self.cpu.lr,
            pc: self.cpu.pc,
            apsr: self.cpu.apsr,
            ipsr: self.cpu.ipsr,
            epsr: self.cpu.epsr,
        }
    }

    /// Fetches, decodes and executes one instruction; returns the cycles it
    /// took, 0 when the processor halts.
    fn execute(&mut self) -> (r: u32)
        ensures
            step_post(*old(self), *final(self), r),
    {
        get_thumb_instruction(self)
    }
}

/// A 16-bit pattern test of the decode tree.
pub open spec fn g16(hw: u16, allow: Seq<char>, exclude: Seq<char>) -> bool {
    guarded_match(hw as u64, 16, allow, exclude)
}

/// A 32-bit pattern test of the decode tree.
pub open spec fn g32(word: u32, allow: Seq<char>, exclude: Seq<char>) -> bool {
    guarded_match(word as u64, 32, allow, exclude)
}

/// One step of the processor: fetch the halfword at the program counter and
/// execute it; a failed fetch halts.
pub open spec fn step_post(old_sys: M0System, new_sys: M0System, r: u32) -> bool {
    match bus_read16(old_sys.system_map.map@, old_sys.cpu.pc as int) {
        Err(_) => halted(old_sys, new_sys, r),
        Ok(hw) => thumb16_post(hw, old_sys, new_sys, r),
    }
}

/// The 16-bit decode list, most specific prefix first; every group without a
/// specified behaviour halts.
pub open spec fn thumb16_post(hw: u16, old_sys: M0System, new_sys: M0System, r: u32) -> bool {
    if g16(hw, "111**"@, "11100"@) {
        thumb32_post(hw, old_sys, new_sys, r)
    } else if g16(hw, "11011110"@, ""@) || g16(hw, "11011111"@, ""@) {
        halted(old_sys, new_sys, r)
    } else if g16(hw, "01000111"@, ""@) {
        if (hw >> 7u16) & 1u16 == 0 {
            moved_pc(old_sys, new_sys, r, bx_target(hw, old_sys.cpu))
        } else {
            halted(old_sys, new_sys, r)
        }
    } else if g16(hw, "000110"@, ""@) || g16(hw, "000111"@, ""@) || g16(hw, "010000"@, ""@)
        || g16(hw, "010001"@, ""@) {
        halted(old_sys, new_sys, r)
    } else if g16(hw, "01001"@, ""@) {
        load_literal_post(hw, old_sys, new_sys, r)
    } else if g16(hw, "01100"@, ""@) || g16(hw, "01101"@, ""@) || g16(hw, "01110"@, ""@) || g16(
        hw,
        "01111"@,
        ""@,
    ) || g16(hw, "10000"@, ""@) || g16(hw, "10001"@, ""@) || g16(hw, "10010"@, ""@) || g16(
        hw,
        "10011"@,
        ""@,
    ) || g16(hw, "10100"@, ""@) {
        halted(old_sys, new_sys, r)
    } else if g16(hw, "10101"@, ""@) {
        add_to_sp_post(hw, old_sys, new_sys, r)
    } else if g16(hw, "11000"@, ""@) || g16(hw, "11001"@, ""@) {
        halted(old_sys, new_sys, r)
    } else if g16(hw, "11100"@, ""@) {
        moved_pc(old_sys, new_sys, r, add32(add32(old_sys.cpu.pc, 2), b16_offset(hw)))
    } else if g16(hw, "0101"@, ""@) {
        halted(old_sys, new_sys, r)
    } else if g16(hw, "1011"@, ""@) {
        misc_post(hw, old_sys, new_sys, r)
    } else {
        halted(old_sys, new_sys, r)
    }
}

/// The word of a 32-bit instruction: first halfword high, second low.
pub open spec fn word_of(hw: u16, low: u16) -> u32 {
    ((hw as u32) << 16u32) | (low as u32)
}

/// A 32-bit instruction: fetch its second halfword, then walk the 32-bit list.
pub open spec fn thumb32_post(hw: u16, old_sys: M0System, new_sys: M0System, r: u32) -> bool {
    match bus_read16(old_sys.system_map.map@, add32(old_sys.cpu.pc, 2) as int) {
        Err(_) => halted(old_sys, new_sys, r),
        Ok(low) => {
            let w = word_of(hw, low);
            if g32(w, "111 01 00**0**"@, ""@) || g32(w, "111 01 00**1**"@, ""@) || g32(
                w,
                "111 01 01*****"@,
                ""@,
            ) || g32(w, "111 01 1xxxxxx"@, ""@) || g32(w, "111 10 *0***** **** 0"@, ""@) || g32(
                w,
                "111 10 *1***** **** 0"@,
                ""@,
            ) {
                halted(old_sys, new_sys, r)
            } else if g32(w, "111 10 ******* **** 1"@, ""@) {
                branch_misc_post(w, old_sys, new_sys, r)
            } else if g32(w, "111 11 000***0"@, ""@) || g32(w, "111 11 00**001"@, ""@) {
                halted(old_sys, new_sys, r)
            } else if g32(w, "111 11 00**011"@, ""@) {
                halfword_hints_post(w, old_sys, new_sys, r)
            } else {
                halted(old_sys, new_sys, r)
            }
        },
    }
}

/// Branch and miscellaneous control: op (bits 26..20) over op1 (bits 14..12).
pub open spec fn branch_misc_selector(word: u32) -> u32 {
    (((word >> 20u32) & 0x7fu32) << 3u32) | ((word >> 12u32) & 0b111u32)
}

pub open spec fn branch_misc_post(word: u32, old_sys: M0System, new_sys: M0System, r: u32) -> bool {
    let sel = branch_misc_selector(word) as u64;
    if lower_match(sel, "******* 1*1"@) {
        &&& r == 1
        &&& new_sys.system_map == old_sys.system_map
        &&& new_sys.cpu == CortexM0 {
            pc: add32(add32(old_sys.cpu.pc, 4), branch32_offset(word)),
            lr: add32(old_sys.cpu.pc, 4) | 1u32,
            ..old_sys.cpu
        }
    } else if lower_match(sel, "******* 0*1"@) {
        moved_pc(old_sys, new_sys, r, add32(add32(old_sys.cpu.pc, 4), branch32_offset(word)))
    } else {
        halted(old_sys, new_sys, r)
    }
}

/// Load halfword and memory hints: op1 (bits 24..23), op2 (bits 11..6) and Rn
/// (bits 19..16), for the hints that target Rt = 15.
pub open spec fn hint_selector(word: u32) -> u32 {
    (((word >> 23u32) & 0b11u32) << 10u32) | (((word >> 6u32) & 0x3fu32) << 4u32) | ((word
        >> 16u32) & 0xfu32)
}

/// The unallocated hints (Rt = 15, op1 = 00, op2 = 000000, Rn other than 15)
/// execute as a 32-bit no-op; the rest halts.
pub open spec fn halfword_hints_post(word: u32, old_sys: M0System, new_sys: M0System, r: u32) -> bool {
    let sel = hint_selector(word) as u64;
    if (word >> 12u32) & 0xfu32 == 0xfu32 && lower_match(sel, "00 000000 ****"@) && !lower_match(
        sel,
        "00 000000 1111"@,
    ) {
        moved_pc(old_sys, new_sys, r, add32(old_sys.cpu.pc, 4))
    } else {
        halted(old_sys, new_sys, r)
    }
}

/// The address of a literal load: the word-aligned program counter plus imm8 * 4.
pub open spec fn literal_address(hw: u16, pc: u32) -> u32 {
    add32(pc & 0xffff_fffcu32, (hw & 0xffu16) as int * 4)
}

/// Load literal: the word read goes to Rt (bits 10..8, so r0 to r7); a failed
/// read halts.
pub open spec fn load_literal_post(hw: u16, old_sys: M0System, new_sys: M0System, r: u32) -> bool {
    let rt = ((hw >> 8u16) & 0b111u16) as int;
    match bus_read32(old_sys.system_map.map@, literal_address(hw, old_sys.cpu.pc) as int) {
        Err(_) => halted(old_sys, new_sys, r),
        Ok(data) => {
            &&& r == 1
            &&& new_sys.system_map == old_sys.system_map
            &&& new_sys.cpu.r@ == old_sys.cpu.r@.update(rt, data)
            &&& new_sys.cpu == CortexM0 {
                r: new_sys.cpu.r,
                pc: add32(old_sys.cpu.pc, 2),
                ..old_sys.cpu
            }
        },
    }
}

/// Add SP plus immediate: Rd (bits 10..8) receives SP + imm8 * 4, with the flags.
pub open spec fn add_to_sp_post(hw: u16, old_sys: M0System, new_sys: M0System, r: u32) -> bool {
    let rd = ((hw >> 8u16) & 0b111u16) as int;
    let imm = ((hw & 0xffu16) as int * 4) as u32;
    let sp = active_sp(old_sys.cpu);
    &&& r == 1
    &&& new_sys.system_map == old_sys.system_map
    &&& new_sys.cpu.r@ == old_sys.cpu.r@.update(rd, add_with_carry_spec(sp, imm, 0).result)
    &&& new_sys.cpu == CortexM0 {
        r: new_sys.cpu.r,
        apsr: add_with_carry_apsr(sp, imm, 0),
        pc: add32(old_sys.cpu.pc, 2),
        ..old_sys.cpu
    }
}

/// Adjust SP: add imm7 * 4, or subtract it when bit 7 is set, with the flags.
pub open spec fn adjust_sp_post(hw: u16, old_sys: M0System, new_sys: M0System, r: u32) -> bool {
    let imm = ((hw & 0x7fu16) as int * 4) as u32;
    let sp = active_sp(old_sys.cpu);
    let add = hw & 0x80u16 == 0;
    let b = if add {
        imm
    } else {
        !imm
    };
    let carry: u32 = if add {
        0
    } else {
        1
    };
    &&& r == 1
    &&& new_sys.system_map == old_sys.system_map
    &&& new_sys.cpu.sp@ == old_sys.cpu.sp@.update(
        sp_index(old_sys.cpu),
        add_with_carry_spec(sp, b, carry).result,
    )
    &&& new_sys.cpu == CortexM0 {
        sp: new_sys.cpu.sp,
        apsr: add_with_carry_apsr(sp, b, carry),
        pc: add32(old_sys.cpu.pc, 2),
        ..old_sys.cpu
    }
}

/// Miscellaneous 16-bit instructions, chosen by bits 11..8.
pub open spec fn misc_post(hw: u16, old_sys: M0System, new_sys: M0System, r: u32) -> bool {
    let op = (hw >> 8u16) & 0xfu16;
    if op == 0 {
        adjust_sp_post(hw, old_sys, new_sys, r)
    } else if op == 4 || op == 5 {
        push_post(hw, old_sys, new_sys, r)
    } else if op == 15 && hw & 0xfu16 == 0 && (hw >> 4u16) & 0xfu16 == 0 {
        moved_pc(old_sys, new_sys, r, add32(old_sys.cpu.pc, 2))
    } else {
        halted(old_sys, new_sys, r)
    }
}

fn get_thumb_instruction(system: &mut M0System) -> (r: u32)
    ensures
        step_post(*old(system), *final(system), r),
{
    let bytecode: u16 = match system.system_map.read16(system.cpu.pc) {
        Ok(hw) => hw,
        Err(_) => return unpredicable(system),
    };
    if check_bitcode_upper(&bytecode, "111**", "11100") {
        return instruction_32bit(bytecode, system);
    }
    // 8-bit groups
    if check_bitcode_upper(&bytecode, "11011110", "") {
        return undefined_instruction(bytecode, system);
    }
    if check_bitcode_upper(&bytecode, "11011111", "") {
        return service_call(bytecode, system);
    }
    if check_bitcode_upper(&bytecode, "01000111", "") {
        return branch_exchange_instruction_set(bytecode, system);
    }
    // 6-bit groups
    if check_bitcode_upper(&bytecode, "000110", "") {
        return add_substract_register(bytecode, system);
    }
    if check_bitcode_upper(&bytecode, "000111", "") {
        return add_substract_immediate(bytecode, system);
    }
    if check_bitcode_upper(&bytecode, "010000", "") {
        return data_processing_register(bytecode, system);
    }
    if check_bitcode_upper(&bytecode, "010001", "") {
        return special_data_processing(bytecode, system);
    }
    // 5-bit groups
    if check_bitcode_upper(&bytecode, "01001", "") {
        return load_from_literal_pool(bytecode, system);
    }
    if check_bitcode_upper(&bytecode, "01100", "") {
        return store_word_immediate_offset(bytecode, system);
    }
    if check_bitcode_upper(&bytecode, "01101", "") {
        return loade_word_immediate_offset(bytecode, system);
    }
    if check_bitcode_upper(&bytecode, "01110", "") {
        return store_byte_immediate_offset(bytecode, system);
    }
    if check_bitcode_upper(&bytecode, "01111", "") {
        return loade_byte_immediate_offset(bytecode, system);
    }
    if check_bitcode_upper(&bytecode, "10000", "") {
        return store_halfward_immediate_offset(bytecode, system);
    }
    if check_bitcode_upper(&bytecode, "10001", "") {
        return load_halfward_immediate_offset(bytecode, system);
    }
    if check_bitcode_upper(&bytecode, "10010", "") {
        return store_to_stack(bytecode, system);
    }
    if check_bitcode_upper(&bytecode, "10011", "") {
        return load_from_stack(bytecode, system);
    }
    if check_bitcode_upper(&bytecode, "10100", "") {
        return add_to_pc(bytecode, system);
    }
    if check_bitcode_upper(&bytecode, "10101", "") {
        return add_to_sp(bytecode, system);
    }
    if check_bitcode_upper(&bytecode, "11000", "") {
        return store_multiple(bytecode, system);
    }
    if check_bitcode_upper(&bytecode, "11001", "") {
        return load_multiple(bytecode, system);
    }
    if check_bitcode_upper(&bytecode, "11100", "") {
        return unconditional_branch(bytecode, system);
    }
    // 4-bit groups
    if check_bitcode_upper(&bytecode, "0101", "") {
        return load_store_register_offset(bytecode, system);
    }
    if check_bitcode_upper(&bytecode, "1011", "") {
        return miscellaneous(bytecode, system);
    }
    if check_bitcode_upper(&bytecode, "1101", "") {
        return conditional_branch(bytecode, system);
    }
    // 3-bit groups
    if check_bitcode_upper(&bytecode, "000", "") {
        return shift_by_immediate_move_register(bytecode, system);
    }
    if check_bitcode_upper(&bytecode, "001", "") {
        return add_substract_compare_move_immediate(bytecode, system);
    }
    decode_error(bytecode, system)
}

// 000 opcode[2] imm[5] Rm[3] Rd[3]
fn shift_by_immediate_move_register(bytecode: u16, system: &mut M0System) -> (r: u32)
    ensures
        halted(*old(system), *final(system), r),
{
    not_impremented(system)
}

// 000110 opc[1] Rm[3] Rn[3] Rd[3]
fn add_substract_register(bytecode: u16, system: &mut M0System) -> (r: u32)
    ensures
        halted(*old(system), *final(system), r),
{
    not_impremented(system)
}

// 000111 opc[1] imm[3] Rn[3] Rd[3]
fn add_substract_immediate(bytecode: u16, system: &mut M0System) -> (r: u32)
    ensures
        halted(*old(system), *final(system), r),
{
    not_impremented(system)
}

// 001 opcode[2] Rdn[3] imm[8]
fn add_substract_compare_move_immediate(bytecode: u16, system: &mut M0System) -> (r: u32)
    ensures
        halted(*old(system), *final(system), r),
{
    not_impremented(system)
}

// 010000 opcode[4] Rm[3] Rdn[3]
fn data_processing_register(bytecode: u16, system: &mut M0System) -> (r: u32)
    ensures
        halted(*old(system), *final(system), r),
{
    not_impremented(system)
}

// 010001 opcode[2] DN[1] Rm[4] Rdn[3]
fn special_data_processing(bytecode: u16, system: &mut M0System) -> (r: u32)
    ensures
        halted(*old(system), *final(system), r),
{
    not_impremented(system)
}

// 01000111 L[1] Rm[4] 000: bx when L is clear
fn branch_exchange_instruction_set(bytecode: u16, system: &mut M0System) -> (r: u32)
    ensures
        (bytecode >> 7u16) & 1u16 == 0 ==> moved_pc(
            *old(system),
            *final(system),
            r,
            bx_target(bytecode, old(system).cpu),
        ),
        (bytecode >> 7u16) & 1u16 != 0 ==> halted(*old(system), *final(system), r),
{
    if (bytecode >> 7u16) & 1u16 == 0 {
        bx(bytecode, system)
    } else {
        not_impremented(system)
    }
}

// 01001 Rt[3] imm[8]
fn load_from_literal_pool(bytecode: u16, system: &mut M0System) -> (r: u32)
    ensures
        load_literal_post(bytecode, *old(system), *final(system), r),
{
    let regnum: usize = ((bytecode >> 8u16) & 0b111u16) as usize;
    proof {
        assert((bytecode >> 8u16) & 0b111u16 <= 7u16) by (bit_vector);
    }
    let imm32: u32 = ((bytecode & 0xffu16) as u32) * 4;
    let load_address: u32 = add_wrapping(system.cpu.pc & 0xffff_fffcu32, imm32);
    let load_data: u32 = match system.system_map.read32(load_address) {
        Ok(word) => word,
        Err(_) => return unpredicable(system),
    };
    system.cpu.r[regnum] = load_data;
    system.cpu.pc = add_wrapping(system.cpu.pc, 2);
    1
}

// 0101 opcode[3] Rm[3] Rn[3] Rt[3]
fn load_store_register_offset(bytecode: u16, system: &mut M0System) -> (r: u32)
    ensures
        halted(*old(system), *final(system), r),
{
    not_impremented(system)
}

// 01100 imm[5] Rn[3] Rt[3]
fn store_word_immediate_offset(bytecode: u16, system: &mut M0System) -> (r: u32)
    ensures
        halted(*old(system), *final(system), r),
{
    not_impremented(system)
}

// 01101 imm[5] Rn[3] Rt[3]
fn loade_word_immediate_offset(bytecode: u16, system: &mut M0System) -> (r: u32)
    ensures
        halted(*old(system), *final(system), r),
{
    not_impremented(system)
}

// 01110 imm[5] Rn[3] Rt[3]
fn store_byte_immediate_offset(bytecode: u16, system: &mut M0System) -> (r: u32)
    ensures
        halted(*old(system), *final(system), r),
{
    not_impremented(system)
}

// 01111 imm[5] Rn[3] Rt[3]
fn loade_byte_immediate_offset(bytecode: u16, system: &mut M0System) -> (r: u32)
    ensures
        halted(*old(system), *final(system), r),
{
    not_impremented(system)
}

// 10000 imm[5] Rn[3] Rt[3]
fn store_halfward_immediate_offset(bytecode: u16, system: &mut M0System) -> (r: u32)
    ensures
        halted(*old(system), *final(system), r),
{
    not_impremented(system)
}

// 10001 imm[5] Rn[3] Rt[3]
fn load_halfward_immediate_offset(bytecode: u16, system: &mut M0System) -> (r: u32)
    ensures
        halted(*old(system), *final(system), r),
{
    not_impremented(system)
}

// 10010 Rt[3] imm[8]
fn store_to_stack(bytecode: u16, system: &mut M0System) -> (r: u32)
    ensures
        halted(*old(system), *final(system), r),
{
    not_impremented(system)
}

// 10011 Rt[3] imm[8]
fn load_from_stack(bytecode: u16, system: &mut M0System) -> (r: u32)
    ensures
        halted(*old(system), *final(system), r),
{
    not_impremented(system)
}

// 10100 Rd[3] imm[8]
fn add_to_pc(bytecode: u16, system: &mut M0System) -> (r: u32)
    ensures
        halted(*old(system), *final(system), r),
{
    not_impremented(system)
}

// 10101 Rd[3] imm[8]
fn add_to_sp(bytecode: u16, system: &mut M0System) -> (r: u32)
    ensures
        add_to_sp_post(bytecode, *old(system), *final(system), r),
{
    let regnum: usize = ((bytecode >> 8u16) & 0b111u16) as usize;
    proof {
        assert((bytecode >> 8u16) & 0b111u16 <= 7u16) by (bit_vector);
    }
    let imm32: u32 = ((bytecode & 0xffu16) as u32) * 4;
    let index = active_sp_index(&system.cpu);
    let r: crate::cpuflag::ArmV6m = add_with_carry(system.cpu.sp[index], imm32, 0);
    system.cpu.r[regnum] = r.result;
    system.cpu.apsr = r.flags_to_apsr();
    system.cpu.pc = add_wrapping(system.cpu.pc, 2);
    1
}

// 1011 x[12]
fn miscellaneous(bytecode: u16, system: &mut M0System) -> (r: u32)
    ensures
        misc_post(bytecode, *old(system), *final(system), r),
{
    let bit_11_08: u16 = (bytecode >> 8u16) & 0xfu16;
    let bit_03_00: u16 = bytecode & 0xfu16;
    if bit_11_08 == 0b0000 {
        adjust_stack_pointer(bytecode, system)
    } else if bit_11_08 == 0b0010 {
        sign_zero_extend(bytecode, system)
    } else if bit_11_08 == 0b0001 || bit_11_08 == 0b0011 {
        cbz(bytecode, system)
    } else if bit_11_08 == 0b1001 || bit_11_08 == 0b1011 {
        cbnz(bytecode, system)
    } else if bit_11_08 == 0b0100 || bit_11_08 == 0b0101 {
        push(bytecode, system)
    } else if bit_11_08 == 0b1100 || bit_11_08 == 0b1101 {
        pop(bytecode, system)
    } else if bit_11_08 == 0b1110 {
        bkpt(bytecode, system)
    } else if bit_11_08 == 0b1111 {
        if bit_03_00 == 0 {
            nop_compatible_hints(bytecode, system)
        } else {
            it(bytecode, system)
        }
    } else if bit_11_08 == 0b0110 {
        not_impremented(system)
    } else {
        unpredicable(system)
    }
}

// 1011 1111 hint[4] 0000
fn nop_compatible_hints(bytecode: u16, system: &mut M0System) -> (r: u32)
    ensures
        (bytecode >> 4u16) & 0xfu16 == 0 ==> moved_pc(
            *old(system),
            *final(system),
            r,
            add32(old(system).cpu.pc, 2),
        ),
        (bytecode >> 4u16) & 0xfu16 != 0 ==> halted(*old(system), *final(system), r),
{
    let hint_number: u16 = (bytecode >> 4u16) & 0xfu16;
    if hint_number == 0x0 {
        nop(bytecode, system)
    } else if hint_number == 0x1 {
        cpu_yield(bytecode, system)
    } else if hint_number == 0x2 {
        wfe(bytecode, system)
    } else if hint_number == 0x3 {
        wfi(bytecode, system)
    } else if hint_number == 0x4 {
        sev(bytecode, system)
    } else if hint_number == 0xf {
        dbg(bytecode, system)
    } else {
        unpredicable(system)
    }
}

// 1011 0000 opc[1] imm[7]
fn adjust_stack_pointer(bytecode: u16, system: &mut M0System) -> (r: u32)
    ensures
        adjust_sp_post(bytecode, *old(system), *final(system), r),
{
    let opc: u16 = bytecode & 0x80u16;
    let imm32: u32 = ((bytecode & 0x7fu16) as u32) * 4;
    proof {
        assert(bytecode & 0x7fu16 <= 0x7fu16) by (bit_vector);
    }
    let index = active_sp_index(&system.cpu);
    let sp = system.cpu.sp[index];
    let r: crate::cpuflag::ArmV6m = if opc == 0 {
        add_with_carry(sp, imm32, 0)
    } else {
        add_with_carry(sp, !imm32, 1)
    };
    system.cpu.sp[index] = r.result;
    system.cpu.apsr = r.flags_to_apsr();
    system.cpu.pc = add_wrapping(system.cpu.pc, 2);
    1
}

// 1011 0010 opc[2] Rm[3] Rd[3]
fn sign_zero_extend(bytecode: u16, system: &mut M0System) -> (r: u32)
    ensures
        halted(*old(system), *final(system), r),
{
    not_impremented(system)
}

// 11000 Rn[3] list[8]
fn store_multiple(bytecode: u16, system: &mut M0System) -> (r: u32)
    ensures
        halted(*old(system), *final(system), r),
{
    not_impremented(system)
}

// 11001 Rn[3] list[8]
fn load_multiple(bytecode: u16, system: &mut M0System) -> (r: u32)
    ensures
        halted(*old(system), *final(system), r),
{
    not_impremented(system)
}

// 1101 cond[4] imm[8]
fn conditional_branch(bytecode: u16, system: &mut M0System) -> (r: u32)
    ensures
        halted(*old(system), *final(system), r),
{
    not_impremented(system)
}

// 11011110 x[8]
fn undefined_instruction(bytecode: u16, system: &mut M0System) -> (r: u32)
    ensures
        halted(*old(system), *final(system), r),
{
    not_impremented(system)
}

fn undefined_instruction_32(bytecode32: u32, system: &mut M0System) -> (r: u32)
    ensures
        halted(*old(system), *final(system), r),
{
    not_impremented(system)
}

// 11011111 imm[8]
fn service_call(bytecode: u16, system: &mut M0System) -> (r: u32)
    ensures
        halted(*old(system), *final(system), r),
{
    not_impremented(system)
}

// 11100 imm[11]
fn unconditional_branch(bytecode: u16, system: &mut M0System) -> (r: u32)
    ensures
        moved_pc(
            *old(system),
            *final(system),
            r,
            add32(add32(old(system).cpu.pc, 2), b16_offset(bytecode)),
        ),
{
    b_16(bytecode, system)
}

// (11101 | 11110 | 11111) x[11], then a second halfword
fn instruction_32bit(bytecode: u16, system: &mut M0System) -> (r: u32)
    ensures
        thumb32_post(bytecode, *old(system), *final(system), r),
{
    let bytecode_lower: u16 = match system.system_map.read16(add_wrapping(system.cpu.pc, 2)) {
        Ok(hw) => hw,
        Err(_) => return unpredicable(system),
    };
    let bytecode32: u32 = ((bytecode as u32) << 16u32) | (bytecode_lower as u32);
    // op1 == 0b01
    if check_bitcode_upper(&bytecode32, "111 01 00**0**", "") {
        return load_and_store_multiple(bytecode32, system);
    }
    if check_bitcode_upper(&bytecode32, "111 01 00**1**", "") {
        return load_and_store_double_exclusive_table_branch(bytecode32, system);
    }
    if check_bitcode_upper(&bytecode32, "111 01 01*****", "") {
        return data_processing_shifted_register(bytecode32, system);
    }
    if check_bitcode_upper(&bytecode32, "111 01 1xxxxxx", "") {
        return coprocessor_instructions(bytecode32, system);
    }
    // op1 == 0b10
    if check_bitcode_upper(&bytecode32, "111 10 *0***** **** 0", "") {
        return data_processing_modified_immediate(bytecode32, system);
    }
    if check_bitcode_upper(&bytecode32, "111 10 *1***** **** 0", "") {
        return data_processing_plain_binary_immediate(bytecode32, system);
    }
    if check_bitcode_upper(&bytecode32, "111 10 ******* **** 1", "") {
        return branch_miscellaneous(bytecode32, system);
    }
    // op1 == 0b11
    if check_bitcode_upper(&bytecode32, "111 11 000***0", "") {
        return store_single_data_item(bytecode32, system);
    }
    if check_bitcode_upper(&bytecode32, "111 11 00**001", "") {
        return load_byte_memory_hints(bytecode32, system);
    }
    if check_bitcode_upper(&bytecode32, "111 11 00**011", "") {
        return load_harfword_memory_hints(bytecode32, system);
    }
    if check_bitcode_upper(&bytecode32, "111 11 00**101", "") {
        return load_word(bytecode32, system);
    }
    if check_bitcode_upper(&bytecode32, "111 11 00**121", "") {
        return undefined_instruction_32(bytecode32, system);
    }
    if check_bitcode_upper(&bytecode32, "111 11 010****", "") {
        return data_processing_register_32(bytecode32, system);
    }
    if check_bitcode_upper(&bytecode32, "111 11 0110***", "") {
        return multiply_accumlate_absolutre_difference(bytecode32, system);
    }
    if check_bitcode_upper(&bytecode32, "111 11 0111***", "") {
        return long_multiply_accumlate_divide(bytecode32, system);
    }
    if check_bitcode_upper(&bytecode32, "111 1", "") {
        return coprocessor_instructions(bytecode32, system);
    }
    found_bug(bytecode, system)
}

fn load_and_store_multiple(bytecode32: u32, system: &mut M0System) -> (r: u32)
    ensures
        halted(*old(system), *final(system), r),
{
    not_impremented(system)
}

fn load_and_store_double_exclusive_table_branch(bytecode32: u32, system: &mut M0System) -> (r:
    u32)
    ensures
        halted(*old(system), *final(system), r),
{
    undefined_instruction_32(bytecode32, system)
}

fn data_processing_shifted_register(bytecode32: u32, system: &mut M0System) -> (r: u32)
    ensures
        halted(*old(system), *final(system), r),
{
    undefined_instruction_32(bytecode32, system)
}

fn data_processing_modified_immediate(bytecode32: u32, system: &mut M0System) -> (r: u32)
    ensures
        halted(*old(system), *final(system), r),
{
    undefined_instruction_32(bytecode32, system)
}

fn data_processing_plain_binary_immediate(bytecode32: u32, system: &mut M0System) -> (r: u32)
    ensures
        halted(*old(system), *final(system), r),
{
    undefined_instruction_32(bytecode32, system)
}

// 11110 x[11] 1 op1[3] x[12]: branch with link when op1 is 1x1, branch when 0x1
fn branch_miscellaneous(bytecode32: u32, system: &mut M0System) -> (r: u32)
    ensures
        branch_misc_post(bytecode32, *old(system), *final(system), r),
{
    let op: u32 = (bytecode32 >> 20u32) & 0x7fu32;
    let op1: u32 = (bytecode32 >> 12u32) & 0b111u32;
    let sub_bitcode: u32 = (op << 3u32) | op1;
    if bitmatch_lower(&sub_bitcode, "******* 1*1") {
        return bl_32(bytecode32, system);
    }
    if bitmatch_lower(&sub_bitcode, "******* 0*1") {
        return b_32(bytecode32, system);
    }
    undefined_instruction_32(bytecode32, system)
}

fn store_single_data_item(bytecode32: u32, system: &mut M0System) -> (r: u32)
    ensures
        halted(*old(system), *final(system), r),
{
    undefined_instruction_32(bytecode32, system)
}

fn load_byte_memory_hints(bytecode32: u32, system: &mut M0System) -> (r: u32)
    ensures
        halted(*old(system), *final(system), r),
{
    undefined_instruction_32(bytecode32, system)
}

// 1111100 op1[2] 011 Rn[4] Rt[4] op2[6] x[6]
fn load_harfword_memory_hints(bytecode32: u32, system: &mut M0System) -> (r: u32)
    ensures
        halfword_hints_post(bytecode32, *old(system), *final(system), r),
{
    let op1: u32 = (bytecode32 >> 23u32) & 0b11u32;
    let rn: u32 = (bytecode32 >> 16u32) & 0xfu32;
    let rt: u32 = (bytecode32 >> 12u32) & 0xfu32;
    let op2: u32 = (bytecode32 >> 6u32) & 0x3fu32;
    let sub_bitcode: u32 = (op1 << 10u32) | (op2 << 4u32) | rn;
    if rt == 0b1111 {
        if bitmatch_lower(&sub_bitcode, "00 000000 ****") && !bitmatch_lower(
            &sub_bitcode,
            "00 000000 1111",
        ) {
            return nop_32(bytecode32, system);
        }
    } else {
        let sub_bitcode_rt: u32 = (sub_bitcode << 4u32) | rt;
        if bitmatch_lower(&sub_bitcode_rt, "0* ****** 1111 ****") {
            return ldrh_32(bytecode32, system);
        }
    }
    not_impremented(system)
}

fn ldrh_32(bytecode32: u32, system: &mut M0System) -> (r: u32)
    ensures
        halted(*old(system), *final(system), r),
{
    not_impremented(system)
}

fn load_word(bytecode32: u32, system: &mut M0System) -> (r: u32)
    ensures
        halted(*old(system), *final(system), r),
{
    undefined_instruction_32(bytecode32, system)
}

fn data_processing_register_32(bytecode32: u32, system: &mut M0System) -> (r: u32)
    ensures
        halted(*old(system), *final(system), r),
{
    not_impremented(system)
}

fn multiply_accumlate_absolutre_difference(bytecode32: u32, system: &mut M0System) -> (r: u32)
    ensures
        halted(*old(system), *final(system), r),
{
    not_impremented(system)
}

fn long_multiply_accumlate_divide(bytecode32: u32, system: &mut M0System) -> (r: u32)
    ensures
        halted(*old(system), *final(system), r),
{
    not_impremented(system)
}

fn coprocessor_instructions(bytecode32: u32, system: &mut M0System) -> (r: u32)
    ensures
        halted(*old(system), *final(system), r),
{
    not_impremented(system)
}

/// No defined 16-bit instruction has this encoding.
fn decode_error(bytecode: u16, system: &mut M0System) -> (r: u32)
    ensures
        halted(*old(system), *final(system), r),
{
    unpredicable(system)
}

/// The 32-bit list ran out: a gap in the decode tree, not in the encoding.
fn found_bug(bytecode: u16, system: &mut M0System) -> (r: u32)
    ensures
        halted(*old(system), *final(system), r),
{
    unpredicable(system)
}

} // verus!
