use crate::cpu::{active_sp, active_sp_index, add32, read_reg, reg_value, sp_index, CortexM0, M0System};
use crate::device::{
    bus_read32, bus_write_post, bytes32, covers, find_device, lemma_write_keeps_layout,
    written_data, BusError, MemoryMappedDevice, SystemMapAccess,
};
use vstd::prelude::*;

verus! {

/// The processor halts: nothing changes and no cycle passes.
pub open spec fn halted(old_sys: M0System, new_sys: M0System, r: u32) -> bool {
    r == 0 && new_sys == old_sys
}

/// One cycle in which only the program counter changes, to `pc`.
pub open spec fn moved_pc(old_sys: M0System, new_sys: M0System, r: u32, pc: u32) -> bool {
    &&& r == 1
    &&& new_sys.system_map == old_sys.system_map
    &&& new_sys.cpu == CortexM0 { pc, ..old_sys.cpu }
}

/// `a + b` on 32 bits, wrapping.
pub fn add_wrapping(a: u32, b: u32) -> (r: u32)
    ensures
        r == add32(a, b as int),
{
    a.wrapping_add(b)
}

/// `a - b` on 32 bits, wrapping.
pub fn sub_wrapping(a: u32, b: u32) -> (r: u32)
    ensures
        r == add32(a, -(b as int)),
{
    a.wrapping_sub(b)
}

/// Adding a multiple of 2^32 does not change a wrapped sum.
proof fn lemma_add32_wrap(a: u32, b: int)
    ensures
        add32(a, b + 0x1_0000_0000) == add32(a, b),
{
    vstd::arithmetic::div_mod::lemma_mod_add_multiples_vanish(a as int + b, 0x1_0000_0000);
}

proof fn lemma_and_le(x: u32, m: u32)
    ensures
        x & m <= m,
{
    assert(x & m <= m) by (bit_vector);
}

/// Bit `i` of `x` is set.
pub open spec fn bit_set(x: u32, i: int) -> bool {
    (x >> (i as u32)) & 1u32 == 1u32
}

/// The number of set bits among bits `0..k` of `x`.
pub open spec fn count_bits(x: u32, k: int) -> nat
    decreases k,
{
    if k <= 0 {
        0
    } else {
        count_bits(x, k - 1) + if bit_set(x, k - 1) {
            1nat
        } else {
            0nat
        }
    }
}

/// The number of set bits of a word.
pub fn bit_count(bytecode: u32) -> (r: u32)
    ensures
        r as nat == count_bits(bytecode, 32),
{
    let mut count: u32 = 0;
    let mut i: u32 = 0;
    while i < 32
        invariant
            i <= 32,
            count as nat == count_bits(bytecode, i as int),
            count <= i,
        decreases 32 - i,
    {
        if (bytecode >> i) & 1u32 == 1u32 {
            count = count + 1;
        }
        i = i + 1;
    }
    count
}

/// Halts on an architecturally unpredictable encoding.
pub fn unpredicable(system: &mut M0System) -> (r: u32)
    ensures
        halted(*old(system), *final(system), r),
{
    0
}

/// Halts on an encoding whose behaviour is left unspecified.
pub fn not_impremented(system: &mut M0System) -> (r: u32)
    ensures
        halted(*old(system), *final(system), r),
{
    0
}

/// The signed offset of a 16-bit branch: 11 bits, sign-extended, times two.
pub open spec fn b16_offset(bytecode: u16) -> int {
    let imm11 = (bytecode & 0x7ffu16) as int;
    if imm11 >= 0x400 {
        imm11 * 2 - 0x1000
    } else {
        imm11 * 2
    }
}

/// Branch (16-bit): the offset is added to the address after the instruction.
pub fn b_16(bytecode: u16, system: &mut M0System) -> (r: u32)
    ensures
        moved_pc(
            *old(system),
            *final(system),
            r,
            add32(add32(old(system).cpu.pc, 2), b16_offset(bytecode)),
        ),
{
    let next: u32 = add_wrapping(system.cpu.pc, 2);
    let imm11: u32 = (bytecode & 0x7ffu16) as u32;
    proof {
        assert(bytecode & 0x7ffu16 <= 0x7ffu16) by (bit_vector);
    }
    let mut imm32: u32 = imm11 * 2;
    if imm11 >= 0x400 {
        imm32 = imm32 + 0xffff_f000u32;
        proof {
            lemma_add32_wrap(next, b16_offset(bytecode));
        }
    }
    system.cpu.pc = add_wrapping(next, imm32);
    1
}

/// The signed offset of a 32-bit branch: S:I1:I2:imm10:imm11:0, sign-extended,
/// with I1 = NOT(J1 XOR S) and I2 = NOT(J2 XOR S).
pub open spec fn branch32_offset(bytecode32: u32) -> int {
    let s = (bytecode32 >> 26u32) & 1u32;
    let j1 = (bytecode32 >> 13u32) & 1u32;
    let j2 = (bytecode32 >> 11u32) & 1u32;
    let imm10 = (bytecode32 >> 16u32) & 0x3ffu32;
    let imm11 = bytecode32 & 0x7ffu32;
    let i1: int = if j1 == s {
        1
    } else {
        0
    };
    let i2: int = if j2 == s {
        1
    } else {
        0
    };
    i1 * 0x80_0000 + i2 * 0x40_0000 + imm10 * 0x1000 + imm11 * 2 - (if s == 1 {
        0x100_0000int
    } else {
        0int
    })
}

/// The 32-bit branch offset as a wrapped word.
fn branch32_imm(bytecode32: u32) -> (r: u32)
    ensures
        forall|a: u32| #[trigger] add32(a, r as int) == add32(a, branch32_offset(bytecode32)),
{
    let s: u32 = (bytecode32 >> 26u32) & 1u32;
    let j1: u32 = (bytecode32 >> 13u32) & 1u32;
    let j2: u32 = (bytecode32 >> 11u32) & 1u32;
    let imm10: u32 = (bytecode32 >> 16u32) & 0x3ffu32;
    let imm11: u32 = bytecode32 & 0x7ffu32;
    proof {
        lemma_and_le(bytecode32 >> 26u32, 1);
        lemma_and_le(bytecode32 >> 16u32, 0x3ff);
        lemma_and_le(bytecode32, 0x7ff);
    }
    let i1: u32 = if j1 == s {
        1
    } else {
        0
    };
    let i2: u32 = if j2 == s {
        1
    } else {
        0
    };
    let mut imm32: u32 = i1 * 0x80_0000 + i2 * 0x40_0000 + imm10 * 0x1000 + imm11 * 2;
    if s == 1 {
        imm32 = imm32 + 0xff00_0000u32;
        proof {
            assert forall|a: u32| #[trigger] add32(a, imm32 as int) == add32(
                a,
                branch32_offset(bytecode32),
            ) by {
                lemma_add32_wrap(a, branch32_offset(bytecode32));
            }
        }
    }
    imm32
}

/// Branch (32-bit): the offset is added to the address after the instruction.
pub fn b_32(bytecode32: u32, system: &mut M0System) -> (r: u32)
    ensures
        moved_pc(
            *old(system),
            *final(system),
            r,
            add32(add32(old(system).cpu.pc, 4), branch32_offset(bytecode32)),
        ),
{
    let next: u32 = add_wrapping(system.cpu.pc, 4);
    let imm32 = branch32_imm(bytecode32);
    system.cpu.pc = add_wrapping(next, imm32);
    1
}

/// Branch with link: as the 32-bit branch, and the link register receives the
/// address after the instruction with bit 0 set.
pub fn bl_32(bytecode32: u32, system: &mut M0System) -> (r: u32)
    ensures
        r == 1,
        final(system).system_map == old(system).system_map,
        final(system).cpu == (CortexM0 {
            pc: add32(add32(old(system).cpu.pc, 4), branch32_offset(bytecode32)),
            lr: add32(old(system).cpu.pc, 4) | 1u32,
            ..old(system).cpu
        }),
{
    let next: u32 = add_wrapping(system.cpu.pc, 4);
    let imm32 = branch32_imm(bytecode32);
    system.cpu.lr = next | 1u32;
    system.cpu.pc = add_wrapping(next, imm32);
    1
}

pub fn bkpt(bytecode: u16, system: &mut M0System) -> (r: u32)
    ensures
        halted(*old(system), *final(system), r),
{
    not_impremented(system)
}

/// The register a branch-exchange names, bits 6..3.
pub open spec fn bx_reg(bytecode: u16) -> int {
    ((bytecode >> 3u16) & 0xfu16) as int
}

/// The target of a branch-exchange: the named register with bit 0 cleared,
/// or the next instruction when the register is the program counter.
pub open spec fn bx_target(bytecode: u16, c: CortexM0) -> u32 {
    if bx_reg(bytecode) == 15 {
        add32(c.pc, 2)
    } else {
        reg_value(c, bx_reg(bytecode)) & 0xffff_fffeu32
    }
}

/// Branch and exchange. Only one instruction set is modelled, so bit 0 of the
/// target is cleared rather than inspected.
pub fn bx(bytecode: u16, system: &mut M0System) -> (r: u32)
    ensures
        moved_pc(*old(system), *final(system), r, bx_target(bytecode, old(system).cpu)),
{
    let rm: usize = ((bytecode >> 3u16) & 0xfu16) as usize;
    proof {
        assert((bytecode >> 3u16) & 0xfu16 <= 0xfu16) by (bit_vector);
    }
    let target: u32 = if rm == 15 {
        add_wrapping(system.cpu.pc, 2)
    } else {
        read_reg(&system.cpu, rm) & 0xffff_fffeu32
    };
    system.cpu.pc = target;
    1
}

pub fn cbz(bytecode: u16, system: &mut M0System) -> (r: u32)
    ensures
        halted(*old(system), *final(system), r),
{
    not_impremented(system)
}

pub fn cbnz(bytecode: u16, system: &mut M0System) -> (r: u32)
    ensures
        halted(*old(system), *final(system), r),
{
    not_impremented(system)
}

pub fn dbg(bytecode: u16, system: &mut M0System) -> (r: u32)
    ensures
        halted(*old(system), *final(system), r),
{
    not_impremented(system)
}

pub fn hint_32(bytecode32: u32, system: &mut M0System) -> (r: u32)
    ensures
        halted(*old(system), *final(system), r),
{
    not_impremented(system)
}

pub fn it(bytecode: u16, system: &mut M0System) -> (r: u32)
    ensures
        halted(*old(system), *final(system), r),
{
    not_impremented(system)
}

pub fn mrs_32(bytecode32: u32, system: &mut M0System) -> (r: u32)
    ensures
        halted(*old(system), *final(system), r),
{
    not_impremented(system)
}

pub fn msr_32(bytecode32: u32, system: &mut M0System) -> (r: u32)
    ensures
        halted(*old(system), *final(system), r),
{
    not_impremented(system)
}

/// No operation: the program counter moves past the instruction.
pub fn nop(bytecode: u16, system: &mut M0System) -> (r: u32)
    ensures
        moved_pc(*old(system), *final(system), r, add32(old(system).cpu.pc, 2)),
{
    system.cpu.pc = add_wrapping(system.cpu.pc, 2);
    1
}

/// No operation, 32-bit form.
pub fn nop_32(bytecode32: u32, system: &mut M0System) -> (r: u32)
    ensures
        moved_pc(*old(system), *final(system), r, add32(old(system).cpu.pc, 4)),
{
    system.cpu.pc = add_wrapping(system.cpu.pc, 4);
    1
}

pub fn pop(bytecode: u16, system: &mut M0System) -> (r: u32)
    ensures
        halted(*old(system), *final(system), r),
{
    not_impremented(system)
}

pub fn sev(bytecode: u16, system: &mut M0System) -> (r: u32)
    ensures
        halted(*old(system), *final(system), r),
{
    not_impremented(system)
}

pub fn wfe(bytecode: u16, system: &mut M0System) -> (r: u32)
    ensures
        halted(*old(system), *final(system), r),
{
    not_impremented(system)
}

pub fn wfi(bytecode: u16, system: &mut M0System) -> (r: u32)
    ensures
        halted(*old(system), *final(system), r),
{
    not_impremented(system)
}

pub fn cpu_yield(bytecode: u16, system: &mut M0System) -> (r: u32)
    ensures
        halted(*old(system), *final(system), r),
{
    not_impremented(system)
}

/// The registers of a push list among bits `0..k`, lowest first.
pub open spec fn pushed_values(c: CortexM0, list: u32, k: int) -> Seq<u32>
    decreases k,
{
    if k <= 0 {
        Seq::empty()
    } else {
        let prev = pushed_values(c, list, k - 1);
        if bit_set(list, k - 1) {
            prev.push(c.r@[k - 1])
        } else {
            prev
        }
    }
}

/// Successive bus states of word writes of `vals` to ascending addresses from `base`.
pub open spec fn writes_chain(
    states: Seq<Seq<MemoryMappedDevice>>,
    base: u32,
    vals: Seq<u32>,
) -> bool {
    &&& states.len() == vals.len() + 1
    &&& forall|k: int|
        0 <= k < vals.len() ==> bus_write_post(
            #[trigger] states[k],
            states[k + 1],
            add32(base, 4 * k) as int,
            bytes32(vals[k]),
        )
}

/// The register list of a push, bits 7..0.
pub open spec fn push_list(bytecode: u16) -> u32 {
    (bytecode & 0xffu16) as u32
}

/// Push: an empty list is unpredictable; otherwise the stack pointer drops by
/// four bytes per listed register, and the registers, lowest first, are
/// stored to ascending addresses from the new stack pointer.
pub open spec fn push_post(bytecode: u16, old_sys: M0System, new_sys: M0System, r: u32) -> bool {
    let list = push_list(bytecode);
    let vals = pushed_values(old_sys.cpu, list, 8);
    let base = add32(active_sp(old_sys.cpu), -4 * vals.len() as int);
    if list == 0 {
        halted(old_sys, new_sys, r)
    } else {
        &&& r == 1
        &&& new_sys.cpu.sp@ == old_sys.cpu.sp@.update(sp_index(old_sys.cpu), base)
        &&& new_sys.cpu == CortexM0 {
            sp: new_sys.cpu.sp,
            pc: add32(old_sys.cpu.pc, 2),
            ..old_sys.cpu
        }
        &&& exists|states: Seq<Seq<MemoryMappedDevice>>|
            writes_chain(states, base, vals) && states[0] == old_sys.system_map.map@
                && states.last() == new_sys.system_map.map@
    }
}

proof fn lemma_pushed_len(c: CortexM0, list: u32, k: int)
    requires
        0 <= k,
    ensures
        pushed_values(c, list, k).len() == count_bits(list, k),
    decreases k,
{
    if k > 0 {
        lemma_pushed_len(c, list, k - 1);
    }
}

/// A byte has no set bits above bit 7.
proof fn lemma_count_byte(list: u32, k: int)
    requires
        list < 0x100,
        8 <= k <= 32,
    ensures
        count_bits(list, k) == count_bits(list, 8),
    decreases k,
{
    if k > 8 {
        let j = (k - 1) as u32;
        assert((list >> j) & 1u32 == 0u32) by (bit_vector)
            requires
                list < 0x100u32,
                8u32 <= j < 32u32,
        ;
        lemma_count_byte(list, k - 1);
    }
}

pub fn push(bytecode: u16, system: &mut M0System) -> (r: u32)
    ensures
        push_post(bytecode, *old(system), *final(system), r),
{
    let reglist: u32 = (bytecode & 0xffu16) as u32;
    if reglist == 0 {
        return unpredicable(system);
    }
    proof {
        assert(bytecode & 0xffu16 <= 0xffu16) by (bit_vector);
    }
    let ghost cpu0 = system.cpu;
    let ghost map0 = system.system_map.map@;
    let count: u32 = bit_count(reglist);
    proof {
        lemma_count_byte(reglist, 32);
        lemma_pushed_len(cpu0, reglist, 8);
        lemma_count_le(reglist, 8);
    }
    let index: usize = active_sp_index(&system.cpu);
    let new_sp: u32 = sub_wrapping(system.cpu.sp[index], 4 * count);
    system.cpu.sp[index] = new_sp;
    let ghost cpu1 = system.cpu;
    let mut adrs: u32 = new_sp;
    let ghost mut states: Seq<Seq<MemoryMappedDevice>> = seq![map0];
    let mut i: usize = 0;
    while i < 8
        invariant
            i <= 8,
            system.cpu == cpu1,
            cpu1.r == cpu0.r,
            states.len() == pushed_values(cpu0, reglist, i as int).len() + 1,
            states[0] == map0,
            states.last() == system.system_map.map@,
            writes_chain(states, new_sp, pushed_values(cpu0, reglist, i as int)),
            adrs == add32(new_sp, 4 * pushed_values(cpu0, reglist, i as int).len() as int),
        decreases 8 - i,
    {
        let ghost vals = pushed_values(cpu0, reglist, i as int);
        if (reglist >> (i as u32)) & 1u32 == 1u32 {
            let value: u32 = system.cpu.r[i];
            let ghost before = system.system_map.map@;
            system.system_map.write32(adrs, value);
            proof {
                let next_vals = vals.push(value);
                assert(pushed_values(cpu0, reglist, i + 1) == next_vals);
                let next_states = states.push(system.system_map.map@);
                assert forall|k: int| 0 <= k < next_vals.len() implies bus_write_post(
                    #[trigger] next_states[k],
                    next_states[k + 1],
                    add32(new_sp, 4 * k) as int,
                    bytes32(next_vals[k]),
                ) by {
                    if k < vals.len() {
                        assert(next_states[k] == states[k]);
                        assert(next_states[k + 1] == states[k + 1]);
                        assert(next_vals[k] == vals[k]);
                    } else {
                        assert(next_states[k] == before);
                    }
                }
                states = next_states;
            }
            adrs = add_wrapping(adrs, 4);
            proof {
                vstd::arithmetic::div_mod::lemma_add_mod_noop(
                    new_sp as int + 4 * vals.len(),
                    4,
                    0x1_0000_0000,
                );
                vstd::arithmetic::div_mod::lemma_mod_twice(
                    new_sp as int + 4 * vals.len(),
                    0x1_0000_0000,
                );
                vstd::arithmetic::div_mod::lemma_small_mod(4, 0x1_0000_0000);
            }
        }
        i = i + 1;
    }
    system.cpu.pc = add_wrapping(system.cpu.pc, 2);
    proof {
        assert(system.cpu.sp@ == cpu0.sp@.update(sp_index(cpu0), new_sp));
    }
    1
}

proof fn lemma_count_le(x: u32, k: int)
    requires
        0 <= k,
    ensures
        count_bits(x, k) <= k,
    decreases k,
{
    if k > 0 {
        lemma_count_le(x, k - 1);
    }
}

/// A word's bytes, least significant first, put back together give the word.
proof fn lemma_bytes32_value(val: u32)
    ensures
        bytes32(val)[0] as int + bytes32(val)[1] as int * 0x100 + bytes32(val)[2] as int * 0x1_0000
            + bytes32(val)[3] as int * 0x100_0000 == val,
{
    assert((val % 0x100) + ((val / 0x100) % 0x100) * 0x100 + ((val / 0x1_0000) % 0x100) * 0x1_0000
        + (val / 0x100_0000) * 0x100_0000 == val) by (bit_vector);
    assert(val / 0x100_0000 < 0x100) by (bit_vector);
}

/// One word write into device `i` at offset `off` of its buffer: the four
/// bytes there become those of `val`, every other byte stays.
proof fn lemma_word_write(
    old_devs: Seq<MemoryMappedDevice>,
    new_devs: Seq<MemoryMappedDevice>,
    a: int,
    val: u32,
    i: int,
)
    requires
        bus_write_post(old_devs, new_devs, a, bytes32(val)),
        find_device(old_devs, a) == Some(i),
        old_devs[i].writable,
        covers(old_devs[i], a, 4),
    ensures
        forall|t: int|
            0 <= t < old_devs[i].data@.len() ==> (#[trigger] new_devs[i].data@[t]) == if a
                - old_devs[i].mapping.adrs <= t < a - old_devs[i].mapping.adrs + 4 {
                bytes32(val)[t - (a - old_devs[i].mapping.adrs)]
            } else {
                old_devs[i].data@[t]
            },
{
    let d = old_devs[i].data@;
    let off = a - old_devs[i].mapping.adrs;
    assert(new_devs[i].data@ == written_data(old_devs[i], a, bytes32(val)));
    assert(written_data(old_devs[i], a, bytes32(val)) == d.subrange(0, off) + bytes32(val)
        + d.subrange(off + 4, d.len() as int));
}

/// After `push {r0, r3, r5}` whose twelve stack bytes lie in one readable and
/// writable device that all three stores resolve to, the stack pointer is 12
/// lower and the three registers read back from it in ascending order.
pub proof fn lemma_push_reads_back(old_sys: M0System, new_sys: M0System, r: u32)
    requires
        push_post(0xB429u16, old_sys, new_sys, r),
        active_sp(old_sys.cpu) >= 12,
        find_device(old_sys.system_map.map@, active_sp(old_sys.cpu) - 12) matches Some(i) && {
            let m = old_sys.system_map.map@;
            let base = active_sp(old_sys.cpu) - 12;
            &&& find_device(m, base + 4) == Some(i)
            &&& find_device(m, base + 8) == Some(i)
            &&& covers(m[i], base, 12)
            &&& m[i].readable
            &&& m[i].writable
        },
    ensures
        r == 1,
        active_sp(new_sys.cpu) == active_sp(old_sys.cpu) - 12,
        new_sys.cpu.pc == add32(old_sys.cpu.pc, 2),
        bus_read32(new_sys.system_map.map@, active_sp(old_sys.cpu) - 12) == Ok::<u32, BusError>(
            old_sys.cpu.r@[0],
        ),
        bus_read32(new_sys.system_map.map@, active_sp(old_sys.cpu) - 8) == Ok::<u32, BusError>(
            old_sys.cpu.r@[3],
        ),
        bus_read32(new_sys.system_map.map@, active_sp(old_sys.cpu) - 4) == Ok::<u32, BusError>(
            old_sys.cpu.r@[5],
        ),
{
    let c = old_sys.cpu;
    let m0 = old_sys.system_map.map@;
    let sp0 = active_sp(c);
    let base = sp0 - 12;
    let i = find_device(m0, base)->Some_0;
    assert((0xB429u16 & 0xffu16) == 0x29u16) by (bit_vector);
    let list = push_list(0xB429u16);
    assert(list == 0x29u32);
    assert((0x29u32 >> 0u32) & 1u32 == 1u32 && (0x29u32 >> 1u32) & 1u32 == 0u32 && (0x29u32
        >> 2u32) & 1u32 == 0u32 && (0x29u32 >> 3u32) & 1u32 == 1u32 && (0x29u32 >> 4u32) & 1u32
        == 0u32 && (0x29u32 >> 5u32) & 1u32 == 1u32 && (0x29u32 >> 6u32) & 1u32 == 0u32 && (0x29u32
        >> 7u32) & 1u32 == 0u32) by (bit_vector);
    reveal_with_fuel(pushed_values, 9);
    let vals = pushed_values(c, list, 8);
    assert(vals =~= seq![c.r@[0], c.r@[3], c.r@[5]]);
    let b = add32(sp0, -12);
    assert(b == base);
    assert(add32(b, 4) == base + 4);
    assert(add32(b, 8) == base + 8);
    let states = choose|states: Seq<Seq<MemoryMappedDevice>>|
        writes_chain(states, b, vals) && states[0] == m0 && states.last()
            == new_sys.system_map.map@;
    assert(states.len() == 4);
    assert(bus_write_post(states[0], states[1], base, bytes32(vals[0])));
    assert(bus_write_post(states[1], states[2], base + 4, bytes32(vals[1])));
    assert(bus_write_post(states[2], states[3], base + 8, bytes32(vals[2])));
    lemma_write_keeps_layout(states[0], states[1], base, bytes32(vals[0]));
    lemma_write_keeps_layout(states[1], states[2], base + 4, bytes32(vals[1]));
    lemma_write_keeps_layout(states[2], states[3], base + 8, bytes32(vals[2]));
    let m3 = new_sys.system_map.map@;
    assert(m3 == states[3]);
    let adrs = m0[i].mapping.adrs as int;
    let off = base - adrs;
    assert(states[1][i].mapping == m0[i].mapping);
    assert(states[2][i].mapping == m0[i].mapping);
    assert(states[3][i].mapping == m0[i].mapping);
    assert(find_device(states[1], base + 4) == Some(i));
    assert(find_device(states[2], base + 8) == Some(i));
    assert(find_device(states[3], base) == Some(i));
    assert(find_device(states[3], base + 4) == Some(i));
    assert(find_device(states[3], base + 8) == Some(i));
    lemma_word_write(states[0], states[1], base, vals[0], i);
    lemma_word_write(states[1], states[2], base + 4, vals[1], i);
    lemma_word_write(states[2], states[3], base + 8, vals[2], i);
    let d3 = states[3][i].data@;
    lemma_bytes32_value(vals[0]);
    lemma_bytes32_value(vals[1]);
    lemma_bytes32_value(vals[2]);
    assert forall|t: int| off <= t < off + 4 implies #[trigger] d3[t] == bytes32(vals[0])[t - off] by {
        assert(states[1][i].data@[t] == bytes32(vals[0])[t - off]);
        assert(states[2][i].data@[t] == states[1][i].data@[t]);
    }
    assert forall|t: int| off + 4 <= t < off + 8 implies #[trigger] d3[t] == bytes32(vals[1])[t
        - off - 4] by {
        assert(states[2][i].data@[t] == bytes32(vals[1])[t - off - 4]);
    }
    assert forall|t: int| off + 8 <= t < off + 12 implies #[trigger] d3[t] == bytes32(vals[2])[t
        - off - 8] by {}
    assert(d3[off] == bytes32(vals[0])[0]);
    assert(d3[off + 1] == bytes32(vals[0])[1]);
    assert(d3[off + 2] == bytes32(vals[0])[2]);
    assert(d3[off + 3] == bytes32(vals[0])[3]);
    assert(d3[off + 4] == bytes32(vals[1])[0]);
    assert(d3[off + 5] == bytes32(vals[1])[1]);
    assert(d3[off + 6] == bytes32(vals[1])[2]);
    assert(d3[off + 7] == bytes32(vals[1])[3]);
    assert(d3[off + 8] == bytes32(vals[2])[0]);
    assert(d3[off + 9] == bytes32(vals[2])[1]);
    assert(d3[off + 10] == bytes32(vals[2])[2]);
    assert(d3[off + 11] == bytes32(vals[2])[3]);
}

} // verus!
