use vstd::prelude::*;

verus! {

/// Condition flags of the application status register, the result they were
/// computed from, and the packed register word.
#[derive(Debug)]
pub struct ArmV6m {
    pub result: u32,
    pub n: u32,
    pub z: u32,
    pub c: u32,
    pub v: u32,
    pub q: u32,
    pub apsr: u32,
}

impl Default for ArmV6m {
    fn default() -> (r: Self)
        ensures
            r.result == 0 && r.n == 0 && r.z == 0 && r.c == 0 && r.v == 0 && r.q == 0 && r.apsr
                == 0,
    {
        ArmV6m { result: 0, n: 0, z: 0, c: 0, v: 0, q: 0, apsr: 0 }
    }
}

/// The flag bits of a status word, as 0 or 1: N is bit 31, Z bit 30, C bit
/// 29, V bit 28 and Q bit 27.
pub open spec fn flag_n(apsr: u32) -> u32 {
    ((apsr / 0x8000_0000) % 2) as u32
}

pub open spec fn flag_z(apsr: u32) -> u32 {
    ((apsr / 0x4000_0000) % 2) as u32
}

pub open spec fn flag_c(apsr: u32) -> u32 {
    ((apsr / 0x2000_0000) % 2) as u32
}

pub open spec fn flag_v(apsr: u32) -> u32 {
    ((apsr / 0x1000_0000) % 2) as u32
}

pub open spec fn flag_q(apsr: u32) -> u32 {
    ((apsr / 0x0800_0000) % 2) as u32
}

proof fn lemma_flag_bits(apsr: u32)
    ensures
        (apsr >> 31u32) & 1u32 == flag_n(apsr),
        (apsr >> 30u32) & 1u32 == flag_z(apsr),
        (apsr >> 29u32) & 1u32 == flag_c(apsr),
        (apsr >> 28u32) & 1u32 == flag_v(apsr),
        (apsr >> 27u32) & 1u32 == flag_q(apsr),
{
    assert((apsr >> 31u32) & 1u32 == (apsr / 0x8000_0000) % 2 && (apsr >> 30u32) & 1u32 == (apsr
        / 0x4000_0000) % 2 && (apsr >> 29u32) & 1u32 == (apsr / 0x2000_0000) % 2 && (apsr
        >> 28u32) & 1u32 == (apsr / 0x1000_0000) % 2 && (apsr >> 27u32) & 1u32 == (apsr
        / 0x0800_0000) % 2) by (bit_vector);
}

/// The flag bits N, Z, C, V, Q packed into bits 31 down to 27.
pub open spec fn pack_flags(n: u32, z: u32, c: u32, v: u32, q: u32) -> u32 {
    (n << 31u32) | (z << 30u32) | (c << 29u32) | (v << 28u32) | (q << 27u32)
}

/// The status bits of a word that are not condition flags.
pub open spec fn reserved_bits(apsr: u32) -> u32 {
    apsr & 0x07ff_ffffu32
}

/// A flag field reads as set when it holds 1.
pub open spec fn is_set(x: u32) -> bool {
    x == 1
}

/// The condition table: what each 4-bit code asks of the flags; 15 is undefined.
pub open spec fn cond_holds(f: ArmV6m, code: u32) -> bool {
    let n = is_set(f.n);
    let z = is_set(f.z);
    let c = is_set(f.c);
    let v = is_set(f.v);
    if code == 0 {
        z
    } else if code == 1 {
        !z
    } else if code == 2 {
        c
    } else if code == 3 {
        !c
    } else if code == 4 {
        n
    } else if code == 5 {
        !n
    } else if code == 6 {
        v
    } else if code == 7 {
        !v
    } else if code == 8 {
        c && !z
    } else if code == 9 {
        !c || z
    } else if code == 10 {
        n == v
    } else if code == 11 {
        n != v
    } else if code == 12 {
        !z && n == v
    } else if code == 13 {
        z || n != v
    } else if code == 14 {
        true
    } else {
        false
    }
}

/// The mnemonic of each 4-bit condition code.
pub open spec fn cond_name(code: u32) -> Seq<char> {
    if code == 0 {
        "eq"@
    } else if code == 1 {
        "ne"@
    } else if code == 2 {
        "cs"@
    } else if code == 3 {
        "cc"@
    } else if code == 4 {
        "mi"@
    } else if code == 5 {
        "pl"@
    } else if code == 6 {
        "vs"@
    } else if code == 7 {
        "vc"@
    } else if code == 8 {
        "hi"@
    } else if code == 9 {
        "ls"@
    } else if code == 10 {
        "ge"@
    } else if code == 11 {
        "lt"@
    } else if code == 12 {
        "gt"@
    } else if code == 13 {
        "le"@
    } else if code == 14 {
        "al"@
    } else {
        "*UNDEFINED*"@
    }
}

/// The flags unpacked from, and packed into, a status word, and the
/// condition table evaluated over them.
pub trait CalcFlags {
    fn new(apsr: u32) -> ArmV6m;

    fn flags_to_apsr(&self) -> u32;

    fn cond(&self, cond: u32) -> (bool, String);
}

impl CalcFlags for ArmV6m {
    /// Unpacks the flags of a status word.
    fn new(apsr: u32) -> (r: ArmV6m)
        ensures
            r.result == 0,
            r.n == flag_n(apsr),
            r.z == flag_z(apsr),
            r.c == flag_c(apsr),
            r.v == flag_v(apsr),
            r.q == flag_q(apsr),
            r.apsr == apsr,
    {
        proof {
            lemma_flag_bits(apsr);
        }
        ArmV6m {
            result: 0,
            n: (apsr >> 31u32) & 1u32,
            z: (apsr >> 30u32) & 1u32,
            c: (apsr >> 29u32) & 1u32,
            v: (apsr >> 28u32) & 1u32,
            q: (apsr >> 27u32) & 1u32,
            apsr,
        }
    }

    /// Packs the flags over the reserved bits of the stored word.
    fn flags_to_apsr(&self) -> (r: u32)
        ensures
            r == pack_flags(self.n, self.z, self.c, self.v, self.q) | reserved_bits(self.apsr),
    {
        let packed: u32 = (self.n << 31u32) | (self.z << 30u32) | (self.c << 29u32) | (self.v
            << 28u32) | (self.q << 27u32);
        packed | (self.apsr & 0x07ff_ffffu32)
    }

    /// Evaluates the low four bits of `cond` against the flags, with the mnemonic.
    fn cond(&self, cond: u32) -> (r: (bool, String))
        ensures
            r.0 == cond_holds(*self, cond % 16),
            r.1@ == cond_name(cond % 16),
    {
        let code: u32 = cond & 0xfu32;
        assert(cond & 0xfu32 == cond % 16) by (bit_vector);
        let n = self.n == 1;
        let z = self.z == 1;
        let c = self.c == 1;
        let v = self.v == 1;
        if code == 0 {
            (z, String::from_str("eq"))
        } else if code == 1 {
            (!z, String::from_str("ne"))
        } else if code == 2 {
            (c, String::from_str("cs"))
        } else if code == 3 {
            (!c, String::from_str("cc"))
        } else if code == 4 {
            (n, String::from_str("mi"))
        } else if code == 5 {
            (!n, String::from_str("pl"))
        } else if code == 6 {
            (v, String::from_str("vs"))
        } else if code == 7 {
            (!v, String::from_str("vc"))
        } else if code == 8 {
            (c && !z, String::from_str("hi"))
        } else if code == 9 {
            (!c || z, String::from_str("ls"))
        } else if code == 10 {
            (n == v, String::from_str("ge"))
        } else if code == 11 {
            (n != v, String::from_str("lt"))
        } else if code == 12 {
            (!z && n == v, String::from_str("gt"))
        } else if code == 13 {
            (z || n != v, String::from_str("le"))
        } else if code == 14 {
            (true, String::from_str("al"))
        } else {
            (false, String::from_str("*UNDEFINED*"))
        }
    }
}

/// Unpacking a status word and packing its flags back gives the word again.
pub proof fn lemma_apsr_round_trip(apsr: u32)
    ensures
        pack_flags(flag_n(apsr), flag_z(apsr), flag_c(apsr), flag_v(apsr), flag_q(apsr))
            | reserved_bits(apsr) == apsr,
{
    lemma_flag_bits(apsr);
    assert(((((apsr >> 31u32) & 1u32) << 31u32) | ((((apsr >> 30u32) & 1u32) << 30u32)) | ((((
    apsr >> 29u32) & 1u32) << 29u32)) | ((((apsr >> 28u32) & 1u32) << 28u32)) | ((((apsr
        >> 27u32) & 1u32) << 27u32))) | (apsr & 0x07ff_ffffu32) == apsr) by (bit_vector);
}

/// The state of an IT (if-then) block: the base condition, the encode mask of
/// the remaining steps, the execution status word holding them, and the flags
/// that the steps are tested against.
#[derive(Debug)]
pub struct IfThenFlags {
    pub cond: u32,
    pub encode: u32,
    pub epsr: u32,
    pub flags: ArmV6m,
}

impl Default for IfThenFlags {
    fn default() -> (r: Self)
        ensures
            r.cond == 0 && r.encode == 0 && r.epsr == 0,
            r.flags.result == 0 && r.flags.n == 0 && r.flags.z == 0 && r.flags.c == 0
                && r.flags.v == 0 && r.flags.q == 0 && r.flags.apsr == 0,
    {
        IfThenFlags { cond: 0, encode: 0, epsr: 0, flags: ArmV6m::default() }
    }
}

/// ITSTATE as held in the execution status word: bits 26..25 and 15..10.
pub open spec fn itstate_of(epsr: u32) -> u32 {
    (((epsr >> 25u32) & 0b11u32) << 6u32) | ((epsr >> 10u32) & 0b11_1111u32)
}

/// The execution status word holding ITSTATE bits 6..0.
pub open spec fn epsr_of(itstate: u32) -> u32 {
    ((itstate & 0b110_0000u32) << 20u32) | ((itstate & 0b1_1111u32) << 10u32)
}

pub open spec fn spec_in_it_block(s: IfThenFlags) -> bool {
    s.encode & 0b1111u32 != 0
}

pub open spec fn spec_last_in_it_block(s: IfThenFlags) -> bool {
    s.encode & 0b1111u32 == 0b1000u32
}

/// The IT-block state machine.
pub trait IfThenCtrl {
    fn new(apsr: u32, epsr: u32) -> IfThenFlags;

    fn in_it_block(&self) -> bool;

    fn last_in_it_block(&self) -> bool;

    fn update_epsr(&mut self) -> u32;

    fn cond(&self) -> (bool, String);
}

impl IfThenCtrl for IfThenFlags {
    /// Decodes ITSTATE from the execution status word; flags come from `apsr`.
    fn new(apsr: u32, epsr: u32) -> (r: IfThenFlags)
        ensures
            r.cond == (itstate_of(epsr) >> 5u32) & 0b111u32,
            r.encode == (if r.cond != 0 {
                (itstate_of(epsr) & 0b1_1110u32) | 1u32
            } else {
                0u32
            }),
            r.epsr == epsr,
            r.flags.result == 0,
            r.flags.n == flag_n(apsr),
            r.flags.z == flag_z(apsr),
            r.flags.c == flag_c(apsr),
            r.flags.v == flag_v(apsr),
            r.flags.q == flag_q(apsr),
            r.flags.apsr == apsr,
    {
        let upper_bit: u32 = (epsr >> 25u32) & 0b11u32;
        let lower_bit: u32 = (epsr >> 10u32) & 0b11_1111u32;
        let itstate: u32 = (upper_bit << 6u32) | lower_bit;
        let cond: u32 = (itstate >> 5u32) & 0b111u32;
        let mut encode: u32 = 0;
        if cond != 0 {
            encode = (itstate & 0b1_1110u32) | 1u32;
        }
        IfThenFlags { cond, encode, epsr, flags: <ArmV6m as CalcFlags>::new(apsr) }
    }

    /// Whether steps of an IT block remain.
    fn in_it_block(&self) -> (r: bool)
        ensures
            r == spec_in_it_block(*self),
    {
        self.encode & 0b1111u32 != 0
    }

    /// Whether the current step is the last of its IT block.
    fn last_in_it_block(&self) -> (r: bool)
        ensures
            r == spec_last_in_it_block(*self),
    {
        self.encode & 0b1111u32 == 0b1000u32
    }

    /// Advances one step: the last step returns to idle, any other shifts the
    /// encode mask. Returns the execution status word of the new state.
    fn update_epsr(&mut self) -> (r: u32)
        ensures
            spec_last_in_it_block(*old(self)) ==> final(self).cond == 0,
            spec_last_in_it_block(*old(self)) ==> final(self).encode == 0,
            !spec_last_in_it_block(*old(self)) ==> final(self).cond == old(self).cond,
            !spec_last_in_it_block(*old(self)) ==> final(self).encode == (old(self).encode
                << 1u32) & 0b1_1111u32,
            final(self).epsr == epsr_of((final(self).cond << 5u32) | final(self).encode),
            final(self).flags == old(self).flags,
            r == final(self).epsr,
    {
        if self.encode & 0b1111u32 == 0b1000u32 {
            self.cond = 0;
            self.encode = 0;
        } else {
            self.encode = (self.encode << 1u32) & 0b1_1111u32;
        }
        let itstate: u32 = (self.cond << 5u32) | self.encode;
        self.epsr = ((itstate & 0b110_0000u32) << 20u32) | ((itstate & 0b1_1111u32) << 10u32);
        self.epsr
    }

    /// The condition of the current step: the base condition extended by the
    /// next encode bit, evaluated against the flags.
    fn cond(&self) -> (r: (bool, String))
        ensures
            r.0 == cond_holds(self.flags, ((self.cond << 1u32) | (self.encode & 1u32)) % 16),
            r.1@ == cond_name(((self.cond << 1u32) | (self.encode & 1u32)) % 16),
    {
        let encode_bit: u32 = self.encode & 1u32;
        let cond: u32 = (self.cond << 1u32) | encode_bit;
        self.flags.cond(cond)
    }
}

/// The sum `a + b + carry` that the flags are computed from.
pub open spec fn carry_sum(a: u32, b: u32, carry: u32) -> int {
    a as int + b as int + carry as int
}

/// Add with carry in: the 32-bit result, N from its sign bit, Z when it is
/// zero, C from bit 16 of the full sum, V when the sign bit of the sum differs
/// from that of `a`; Q is clear and `apsr` holds the flags packed.
pub open spec fn add_with_carry_spec(a: u32, b: u32, carry: u32) -> ArmV6m {
    let sum = carry_sum(a, b, carry);
    let result = (sum % 0x1_0000_0000) as u32;
    let n: u32 = if result >= 0x8000_0000 {
        1
    } else {
        0
    };
    let z: u32 = if result == 0 {
        1
    } else {
        0
    };
    let c = ((sum / 0x1_0000) % 2) as u32;
    let v: u32 = if (a >= 0x8000_0000) != ((sum / 0x8000_0000) % 2 == 1) {
        1
    } else {
        0
    };
    ArmV6m { result, n, z, c, v, q: 0, apsr: pack_flags(n, z, c, v, 0) }
}

/// The status word after an addition: its flags packed, nothing else set.
pub open spec fn add_with_carry_apsr(a: u32, b: u32, carry: u32) -> u32 {
    let f = add_with_carry_spec(a, b, carry);
    pack_flags(f.n, f.z, f.c, f.v, f.q) | reserved_bits(f.apsr)
}

/// Adds with carry in, with the flags of the sum; subtraction is
/// `add_with_carry(a, !b, 1)`.
pub fn add_with_carry(a: u32, b: u32, carry: u32) -> (r: ArmV6m)
    ensures
        r == add_with_carry_spec(a, b, carry),
{
    let sum: u64 = a as u64 + b as u64 + carry as u64;
    let result: u32 = (sum & 0xffff_ffffu64) as u32;
    let n: u32 = if result >= 0x8000_0000 {
        1
    } else {
        0
    };
    let z: u32 = if result == 0 {
        1
    } else {
        0
    };
    let c: u32 = ((sum >> 16u64) & 1u64) as u32;
    let sum_sign: bool = (sum & 0x8000_0000u64) != 0;
    let v: u32 = if (a >= 0x8000_0000) != sum_sign {
        1
    } else {
        0
    };
    proof {
        assert(sum & 0xffff_ffffu64 == sum % 0x1_0000_0000) by (bit_vector);
        assert((sum >> 16u64) & 1u64 == (sum / 0x1_0000) % 2) by (bit_vector);
        assert(((sum & 0x8000_0000u64) != 0) == ((sum / 0x8000_0000) % 2 == 1)) by (bit_vector);
    }
    let apsr: u32 = (n << 31u32) | (z << 30u32) | (c << 29u32) | (v << 28u32) | (0u32 << 27u32);
    ArmV6m { result, n, z, c, v, q: 0, apsr }
}

} // verus!
