use vstd::prelude::*;

verus! {

/// The digit for bit `j` of `x`.
pub open spec fn bit_char(x: u64, j: int) -> char {
    if (x >> (j as u64)) & 1u64 == 1u64 {
        '1'
    } else {
        '0'
    }
}

/// The top `k` of `w` bits of `x` as binary digits, most significant first,
/// with `_` after every digit whose bit index is a nonzero multiple of four.
pub open spec fn grouped_bits(x: u64, w: int, k: int) -> Seq<char>
    decreases k,
{
    if k <= 0 {
        Seq::empty()
    } else {
        let j = w - k;
        let digits = grouped_bits(x, w, k - 1).push(bit_char(x, j));
        if j % 4 == 0 && j > 0 {
            digits.push('_')
        } else {
            digits
        }
    }
}

fn fmt_bits(x: u64, width: u64) -> (r: String)
    requires
        width <= 64,
    ensures
        r@ == grouped_bits(x, width as int, width as int),
{
    let mut s = String::new();
    let mut k: u64 = 0;
    while k < width
        invariant
            k <= width <= 64,
            s@ == grouped_bits(x, width as int, k as int),
        decreases width - k,
    {
        let j: u64 = width - 1 - k;
        let ghost before = s@;
        proof {
            reveal_strlit("0");
            reveal_strlit("1");
            reveal_strlit("_");
        }
        if (x >> j) & 1u64 == 1u64 {
            s.append("1");
            assert(s@ =~= before.push('1'));
        } else {
            s.append("0");
            assert(s@ =~= before.push('0'));
        }
        let ghost digits = s@;
        if j % 4 == 0 && j > 0 {
            s.append("_");
            assert(s@ =~= digits.push('_'));
        }
        k = k + 1;
    }
    s
}

/// A word in binary, in groups of four digits.
pub fn b32_fmt(bin: u32) -> (r: String)
    ensures
        r@ == grouped_bits(bin as u64, 32, 32),
{
    fmt_bits(bin as u64, 32)
}

/// A halfword in binary, in groups of four digits.
pub fn b16_fmt(bin: u16) -> (r: String)
    ensures
        r@ == grouped_bits(bin as u64, 16, 16),
{
    fmt_bits(bin as u64, 16)
}

} // verus!
