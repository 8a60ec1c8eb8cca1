use vstd::arithmetic::div_mod::lemma_small_mod;
use vstd::arithmetic::power2::{lemma2_to64, lemma2_to64_rest, pow2};
use vstd::prelude::*;

verus! {

/// An unsigned coded value of a fixed bit width (8, 16, 32 or 64).
pub trait BitCode: Sized + Copy {
    /// The value, widened to 64 bits.
    spec fn value(&self) -> u64;

    /// The declared bit width.
    spec fn width() -> nat;

    /// The width is one of the four supported, and the value fits in it.
    proof fn lemma_value_fits(&self)
        ensures
            Self::width() == 8 || Self::width() == 16 || Self::width() == 32 || Self::width()
                == 64,
            (self.value() as nat) < pow2(Self::width()),
    ;

    /// The low `width` bits of `val`.
    fn new(val: u64) -> (r: Self)
        ensures
            r.value() as int == val as int % pow2(Self::width()) as int,
    ;

    /// The value widened to 64 bits.
    fn to_64(&self) -> (r: u64)
        ensures
            r == self.value(),
    ;

    /// The bit width of the value's type.
    fn bit_width(&self) -> (r: usize)
        ensures
            r as nat == Self::width(),
    ;
}

impl BitCode for u8 {
    open spec fn value(&self) -> u64 {
        *self as u64
    }

    open spec fn width() -> nat {
        8
    }

    proof fn lemma_value_fits(&self) {
        lemma2_to64();
    }

    fn new(val: u64) -> (r: Self) {
        proof {
            lemma2_to64();
        }
        assert((#[verifier::truncate] (val as u8)) as u64 == val % 0x100) by (bit_vector);
        #[verifier::truncate]
        (val as u8)
    }

    fn to_64(&self) -> (r: u64) {
        *self as u64
    }

    fn bit_width(&self) -> (r: usize) {
        8
    }
}

impl BitCode for u16 {
    open spec fn value(&self) -> u64 {
        *self as u64
    }

    open spec fn width() -> nat {
        16
    }

    proof fn lemma_value_fits(&self) {
        lemma2_to64();
    }

    fn new(val: u64) -> (r: Self) {
        proof {
            lemma2_to64();
        }
        assert((#[verifier::truncate] (val as u16)) as u64 == val % 0x1_0000) by (bit_vector);
        #[verifier::truncate]
        (val as u16)
    }

    fn to_64(&self) -> (r: u64) {
        *self as u64
    }

    fn bit_width(&self) -> (r: usize) {
        16
    }
}

impl BitCode for u32 {
    open spec fn value(&self) -> u64 {
        *self as u64
    }

    open spec fn width() -> nat {
        32
    }

    proof fn lemma_value_fits(&self) {
        lemma2_to64();
    }

    fn new(val: u64) -> (r: Self) {
        proof {
            lemma2_to64();
        }
        assert((#[verifier::truncate] (val as u32)) as u64 == val % 0x1_0000_0000) by (bit_vector);
        #[verifier::truncate]
        (val as u32)
    }

    fn to_64(&self) -> (r: u64) {
        *self as u64
    }

    fn bit_width(&self) -> (r: usize) {
        32
    }
}

impl BitCode for u64 {
    open spec fn value(&self) -> u64 {
        *self
    }

    open spec fn width() -> nat {
        64
    }

    proof fn lemma_value_fits(&self) {
        lemma2_to64();
    }

    fn new(val: u64) -> (r: Self) {
        proof {
            lemma2_to64();
            lemma2_to64_rest();
            lemma_small_mod(val as nat, pow2(64));
        }
        val
    }

    fn to_64(&self) -> (r: u64) {
        *self
    }

    fn bit_width(&self) -> (r: usize) {
        64
    }
}

/// Space and `|` separate parts of a pattern; they are never bit positions.
pub open spec fn is_separator(c: char) -> bool {
    c == ' ' || c == '|'
}

/// Pattern text with its separators removed: one character per bit position.
pub open spec fn strip_separators(p: Seq<char>) -> Seq<char>
    decreases p.len(),
{
    if p.len() == 0 {
        p
    } else if is_separator(p.last()) {
        strip_separators(p.drop_last())
    } else {
        strip_separators(p.drop_last()).push(p.last())
    }
}

/// State of a left-to-right scan of a pattern: the literal bits seen so far
/// (`code`), which positions hold a literal (`mask`), and the number of bit
/// positions (`length`).
pub struct PatternScan {
    pub code: u64,
    pub mask: u64,
    pub length: nat,
}

/// One bit position of a pattern: `0` and `1` are literals, anything else is
/// a wildcard.
pub open spec fn scan_step(s: PatternScan, c: char) -> PatternScan {
    let code = s.code << 1u64;
    let mask = s.mask << 1u64;
    if c == '1' {
        PatternScan { code: code | 1u64, mask: mask | 1u64, length: s.length + 1 }
    } else if c == '0' {
        PatternScan { code, mask: mask | 1u64, length: s.length + 1 }
    } else {
        PatternScan { code, mask, length: s.length + 1 }
    }
}

pub open spec fn scan(p: Seq<char>) -> PatternScan
    decreases p.len(),
{
    if p.len() == 0 {
        PatternScan { code: 0, mask: 0, length: 0 }
    } else {
        scan_step(scan(p.drop_last()), p.last())
    }
}

/// The scan of a pattern as written (separators ignored).
pub open spec fn pattern_scan(p: Seq<char>) -> PatternScan {
    scan(strip_separators(p))
}

/// Number of bit positions (literals and wildcards) of a pattern.
pub open spec fn pattern_length(p: Seq<char>) -> nat {
    pattern_scan(p).length
}

/// `x << k` on 64 bits, where a shift by 64 or more leaves nothing.
pub open spec fn shl64(x: u64, k: int) -> u64 {
    if k >= 64 || k < 0 {
        0
    } else {
        x << (k as u64)
    }
}

/// A pattern matched against the most-significant bits of a `w`-bit value.
/// An empty pattern, or one with more positions than `w`, never matches.
pub open spec fn upper_match(v: u64, w: nat, p: Seq<char>) -> bool {
    let s = pattern_scan(p);
    &&& p.len() > 0
    &&& s.length <= w
    &&& (v & shl64(s.mask, w - s.length)) == shl64(s.code, w - s.length)
}

/// A pattern matched against the least-significant bits of a value.
pub open spec fn lower_match(v: u64, p: Seq<char>) -> bool {
    let s = pattern_scan(p);
    &&& p.len() > 0
    &&& (v & s.mask) == s.code
}

/// Scans a pattern left to right, skipping separators.
fn scan_pattern(pattern: &str) -> (r: (u64, u64, usize))
    ensures
        r.0 == pattern_scan(pattern@).code,
        r.1 == pattern_scan(pattern@).mask,
        r.2 as nat == pattern_scan(pattern@).length,
{
    let n = pattern.unicode_len();
    let mut code: u64 = 0;
    let mut mask: u64 = 0;
    let mut length: usize = 0;
    let mut i: usize = 0;
    while i < n
        invariant
            n == pattern@.len(),
            i <= n,
            length <= i,
            scan(strip_separators(pattern@.subrange(0, i as int))) == (PatternScan {
                code,
                mask,
                length: length as nat,
            }),
        decreases n - i,
    {
        let c = pattern.get_char(i);
        proof {
            let q = pattern@.subrange(0, i + 1);
            let prev = strip_separators(pattern@.subrange(0, i as int));
            assert(q.drop_last() =~= pattern@.subrange(0, i as int));
            assert(q.last() == c);
            if !is_separator(c) {
                assert(strip_separators(q) == prev.push(c));
                assert(prev.push(c).drop_last() =~= prev);
            }
        }
        if c != ' ' && c != '|' {
            code = code << 1u64;
            mask = mask << 1u64;
            if c == '1' {
                code = code | 1u64;
            }
            if c == '0' || c == '1' {
                mask = mask | 1u64;
            }
            length = length + 1;
        }
        i = i + 1;
    }
    assert(pattern@.subrange(0, n as int) =~= pattern@);
    (code, mask, length)
}

/// Tests a pattern against the most-significant bits of `bitcode`.
pub fn bitmatch_upper<T: BitCode>(bitcode: &T, pattern: &str) -> (r: bool)
    ensures
        r == upper_match(bitcode.value(), T::width(), pattern@),
{
    if pattern.is_empty() {
        return false;
    }
    let width: usize = bitcode.bit_width();
    let value: u64 = bitcode.to_64();
    let (code, mask, length) = scan_pattern(pattern);
    if length > width {
        return false;
    }
    let shift: usize = width - length;
    if shift >= 64 {
        assert(value & 0u64 == 0u64) by (bit_vector);
        return true;
    }
    (value & (mask << (shift as u64))) == (code << (shift as u64))
}

/// Tests a pattern against the least-significant bits of `bitcode`.
pub fn bitmatch_lower<T: BitCode>(bitcode: &T, pattern: &str) -> (r: bool)
    ensures
        r == lower_match(bitcode.value(), pattern@),
{
    if pattern.is_empty() {
        return false;
    }
    let value: u64 = bitcode.to_64();
    let (code, mask, _length) = scan_pattern(pattern);
    (value & mask) == code
}

/// An exclude list that excludes nothing.
pub const NO_COND: &'static str = "";

/// A `|`-separated list cut into its patterns; an empty list holds one empty pattern.
pub open spec fn split_bars(s: Seq<char>) -> Seq<Seq<char>>
    decreases s.len(),
{
    if s.len() == 0 {
        seq![Seq::<char>::empty()]
    } else {
        let prev = split_bars(s.drop_last());
        if s.last() == '|' {
            prev.push(Seq::<char>::empty())
        } else {
            prev.update(prev.len() - 1, prev.last().push(s.last()))
        }
    }
}

/// Some pattern of the `|`-separated list matches the top bits of the value.
pub open spec fn any_upper_match(v: u64, w: nat, list: Seq<char>) -> bool {
    exists|k: int| 0 <= k < split_bars(list).len() && upper_match(v, w, #[trigger] split_bars(list)[k])
}

/// A value passes when no exclude pattern matches and some allow pattern does.
pub open spec fn guarded_match(v: u64, w: nat, allow: Seq<char>, exclude: Seq<char>) -> bool {
    !any_upper_match(v, w, exclude) && any_upper_match(v, w, allow)
}

/// Whether any pattern of a `|`-separated list matches the top bits.
fn any_bitmatch_upper<T: BitCode>(bitcode: &T, list: &str) -> (r: bool)
    ensures
        r == any_upper_match(bitcode.value(), T::width(), list@),
{
    let n = list.unicode_len();
    let mut found: bool = false;
    let mut lo: usize = 0;
    let mut i: usize = 0;
    while i < n
        invariant
            n == list@.len(),
            lo <= i <= n,
            split_bars(list@.subrange(0, i as int)).len() >= 1,
            split_bars(list@.subrange(0, i as int)).last() =~= list@.subrange(lo as int, i as int),
            found == exists|k: int|
                0 <= k < split_bars(list@.subrange(0, i as int)).len() - 1 && upper_match(
                    bitcode.value(),
                    T::width(),
                    #[trigger] split_bars(list@.subrange(0, i as int))[k],
                ),
        decreases n - i,
    {
        let c = list.get_char(i);
        let ghost prev = split_bars(list@.subrange(0, i as int));
        proof {
            let q = list@.subrange(0, i + 1);
            assert(q.drop_last() =~= list@.subrange(0, i as int));
            assert(q.last() == c);
        }
        if c == '|' {
            let piece = list.substring_char(lo, i);
            let m = bitmatch_upper(bitcode, piece);
            found = found || m;
            lo = i + 1;
            proof {
                let next = split_bars(list@.subrange(0, i + 1));
                assert(next == prev.push(Seq::<char>::empty()));
                assert(forall|k: int| 0 <= k < prev.len() ==> next[k] == prev[k]);
                if m {
                    assert(next[prev.len() - 1] == piece@);
                }
            }
        } else {
            proof {
                let next = split_bars(list@.subrange(0, i + 1));
                assert(next == prev.update(prev.len() - 1, prev.last().push(c)));
                assert(forall|k: int| 0 <= k < prev.len() - 1 ==> next[k] == prev[k]);
            }
        }
        i = i + 1;
    }
    let piece = list.substring_char(lo, n);
    let m = bitmatch_upper(bitcode, piece);
    proof {
        assert(list@.subrange(0, n as int) =~= list@);
    }
    found || m
}

/// Tests a value against an allow list and an exclude list of patterns: any
/// exclude match rejects the value, otherwise one allow match accepts it.
pub fn check_bitcode_upper<T: BitCode>(bitcode: &T, cond: &str, exclude: &str) -> (r: bool)
    ensures
        r == guarded_match(bitcode.value(), T::width(), cond@, exclude@),
{
    if any_bitmatch_upper(bitcode, exclude) {
        return false;
    }
    any_bitmatch_upper(bitcode, cond)
}

/// Characters of a capture format that name a field; the others record nothing.
pub open spec fn is_field_name(c: char) -> bool {
    c != '0' && c != '1' && c != '_' && c != ' ' && c != '|'
}

/// Bit `j` of `v`, as 0 or 1.
pub open spec fn bit_at(v: u64, j: int) -> nat {
    ((v >> (j as u64)) & 1u64) as nat
}

/// The value captured for field `k`: the bits of the `w`-bit value `v` under each
/// occurrence of `k` in the separator-free format `q`, most significant first.
pub open spec fn field_value(v: u64, w: nat, q: Seq<char>, k: char) -> nat
    decreases q.len(),
{
    if q.len() == 0 {
        0
    } else {
        let prev = field_value(v, w, q.drop_last(), k);
        if q.last() == k {
            prev * 2 + bit_at(v, w - q.len())
        } else {
            prev
        }
    }
}

/// The first entry named `k`.
pub open spec fn field_lookup<T>(s: Seq<(char, T)>, k: char) -> Option<T>
    decreases s.len(),
{
    if s.len() == 0 {
        None
    } else {
        match field_lookup(s.drop_last(), k) {
            Some(x) => Some(x),
            None => if s.last().0 == k {
                Some(s.last().1)
            } else {
                None
            },
        }
    }
}

/// Named fields captured from a coded value.
#[derive(Debug)]
pub struct BitFields<T> {
    pub fields: Vec<(char, T)>,
}

impl<T: BitCode> BitFields<T> {
    pub open spec fn spec_get(&self, name: char) -> Option<T> {
        field_lookup(self.fields@, name)
    }

    /// The field called `name`, if the format had it.
    pub fn get(&self, name: char) -> (r: Option<T>)
        ensures
            r == self.spec_get(name),
    {
        let mut i: usize = 0;
        while i < self.fields.len()
            invariant
                i <= self.fields@.len(),
                field_lookup(self.fields@.subrange(0, i as int), name) is None,
            decreases self.fields@.len() - i,
        {
            let ghost s = self.fields@.subrange(0, i + 1);
            assert(s.drop_last() =~= self.fields@.subrange(0, i as int));
            if self.fields[i].0 == name {
                proof {
                    lemma_lookup_extends(self.fields@, i + 1, name);
                }
                return Some(self.fields[i].1);
            }
            i = i + 1;
        }
        assert(self.fields@.subrange(0, i as int) =~= self.fields@);
        None
    }
}

/// What a lookup finds in a prefix, it finds in the whole sequence.
proof fn lemma_lookup_extends<T>(s: Seq<(char, T)>, n: int, k: char)
    requires
        0 <= n <= s.len(),
        field_lookup(s.subrange(0, n), k) is Some,
    ensures
        field_lookup(s, k) == field_lookup(s.subrange(0, n), k),
    decreases s.len() - n,
{
    if n < s.len() {
        assert(s.subrange(0, n + 1).drop_last() =~= s.subrange(0, n));
        lemma_lookup_extends(s, n + 1, k);
    } else {
        assert(s.subrange(0, n) =~= s);
    }
}

/// With distinct names, a lookup finds exactly the entry of that name.
proof fn lemma_lookup_distinct<T>(s: Seq<(char, T)>, k: char)
    requires
        forall|a: int, b: int| 0 <= a < b < s.len() ==> s[a].0 != s[b].0,
    ensures
        field_lookup(s, k) is None <==> forall|j: int| 0 <= j < s.len() ==> s[j].0 != k,
        forall|j: int| 0 <= j < s.len() && s[j].0 == k ==> field_lookup(s, k) == Some(s[j].1),
    decreases s.len(),
{
    if s.len() > 0 {
        let p = s.drop_last();
        lemma_lookup_distinct(p, k);
        assert forall|j: int| 0 <= j < s.len() && s[j].0 == k implies field_lookup(s, k) == Some(
            s[j].1,
        ) by {
            if j < s.len() - 1 {
                assert(p[j] == s[j]);
            }
        }
    }
}

/// A captured field has no more bits than the format has positions.
proof fn lemma_field_value_bound(v: u64, w: nat, q: Seq<char>, k: char)
    ensures
        field_value(v, w, q, k) < pow2(q.len()),
    decreases q.len(),
{
    vstd::arithmetic::power2::lemma_pow2_pos(q.len());
    lemma2_to64();
    if q.len() > 0 {
        let prev = field_value(v, w, q.drop_last(), k);
        lemma_field_value_bound(v, w, q.drop_last(), k);
        let j = w - q.len();
        lemma_low_bit(v >> (j as u64));
        assert(bit_at(v, j) <= 1);
        vstd::arithmetic::power2::lemma_pow2_unfold(q.len());
        assert(pow2(q.len()) == 2 * pow2((q.len() - 1) as nat));
        assert(prev < pow2((q.len() - 1) as nat));
        assert(q.drop_last().len() == q.len() - 1);
        assert(field_value(v, w, q, k) == (if q.last() == k {
            prev * 2 + bit_at(v, j)
        } else {
            prev
        }));
    }
}

/// Separators removed from a prefix leave no more characters than from the whole.
proof fn lemma_strip_prefix_len(p: Seq<char>, i: int)
    requires
        0 <= i <= p.len(),
    ensures
        strip_separators(p.subrange(0, i)).len() <= strip_separators(p).len(),
    decreases p.len() - i,
{
    if i < p.len() {
        assert(p.subrange(0, i + 1).drop_last() =~= p.subrange(0, i));
        lemma_strip_prefix_len(p, i + 1);
    } else {
        assert(p.subrange(0, i) =~= p);
    }
}

/// The fields of `bitcode` named by `format`, each name listed once, or
/// `Err(false)` when the format (separators ignored) does not have exactly one
/// character per bit.
pub fn parse_bit<T: BitCode>(bitcode: &T, format: &str) -> (r: Result<BitFields<T>, bool>)
    ensures
        r is Err <==> strip_separators(format@).len() != T::width(),
        r is Err ==> r->Err_0 == false,
        r is Ok ==> forall|a: int, b: int|
            0 <= a < b < r->Ok_0.fields@.len() ==> r->Ok_0.fields@[a].0 != r->Ok_0.fields@[b].0,
        r is Ok ==> forall|k: char|
            (#[trigger] r->Ok_0.spec_get(k) is Some) == (is_field_name(k) && strip_separators(
                format@,
            ).contains(k)),
        r is Ok ==> forall|k: char|
            (#[trigger] r->Ok_0.spec_get(k)) is Some ==> r->Ok_0.spec_get(k)->Some_0.value()
                == field_value(bitcode.value(), T::width(), strip_separators(format@), k),
{
    let width: usize = bitcode.bit_width();
    let value: u64 = bitcode.to_64();
    let n = format.unicode_len();
    let mut total: usize = 0;
    let mut i: usize = 0;
    while i < n
        invariant
            n == format@.len(),
            i <= n,
            total as nat == strip_separators(format@.subrange(0, i as int)).len(),
            total <= i,
        decreases n - i,
    {
        proof {
            assert(format@.subrange(0, i + 1).drop_last() =~= format@.subrange(0, i as int));
        }
        let c = format.get_char(i);
        if c != ' ' && c != '|' {
            total = total + 1;
        }
        i = i + 1;
    }
    assert(format@.subrange(0, n as int) =~= format@);
    if total != width {
        return Err(false);
    }
    let ghost q = strip_separators(format@);
    let ghost w = T::width();
    proof {
        bitcode.lemma_value_fits();
    }
    let mut fields: Vec<(char, T)> = Vec::new();
    let mut pos: usize = 0;
    i = 0;
    while i < n
        invariant
            n == format@.len(),
            i <= n,
            q == strip_separators(format@),
            w == T::width(),
            width as nat == w,
            q.len() == w,
            w == 8 || w == 16 || w == 32 || w == 64,
            value == bitcode.value(),
            pos as nat == strip_separators(format@.subrange(0, i as int)).len(),
            pos <= width,
            forall|a: int, b: int|
                0 <= a < b < fields@.len() ==> fields@[a].0 != fields@[b].0,
            forall|j: int|
                0 <= j < fields@.len() ==> {
                    let qi = strip_separators(format@.subrange(0, i as int));
                    &&& is_field_name(#[trigger] fields@[j].0)
                    &&& qi.contains(fields@[j].0)
                    &&& fields@[j].1.value() == field_value(value, w, qi, fields@[j].0)
                },
            forall|k: char|
                is_field_name(k) && strip_separators(format@.subrange(0, i as int)).contains(k)
                    ==> exists|j: int| 0 <= j < fields@.len() && fields@[j].0 == k,
        decreases n - i,
    {
        let c = format.get_char(i);
        let ghost prev = strip_separators(format@.subrange(0, i as int));
        let ghost next = strip_separators(format@.subrange(0, i + 1));
        proof {
            let s = format@.subrange(0, i + 1);
            assert(s.drop_last() =~= format@.subrange(0, i as int));
            assert(s.last() == c);
            lemma_strip_prefix_len(format@, i + 1);
            if !is_separator(c) {
                assert(next == prev.push(c));
                assert(next.drop_last() =~= prev);
                assert(next.last() == c);
                assert forall|k: char| prev.contains(k) implies next.contains(k) by {
                    let t = choose|t: int| 0 <= t < prev.len() && prev[t] == k;
                    assert(next[t] == k);
                }
                assert(next.contains(c)) by {
                    assert(next[next.len() - 1] == c);
                }
                assert forall|k: char| next.contains(k) && k != c implies prev.contains(k) by {
                    let t = choose|t: int| 0 <= t < next.len() && next[t] == k;
                    assert(prev[t] == k);
                }
            } else {
                assert(next == prev);
            }
        }
        if c != ' ' && c != '|' {
            let bit_index: usize = width - 1 - pos;
            let bit: u64 = (value >> (bit_index as u64)) & 1u64;
            let ghost before = fields@;
            let ghost mut at: int = 0;
            if is_field_char(c) {
                let mut j: usize = 0;
                let mut found: bool = false;
                while !found && j < fields.len()
                    invariant
                        j <= fields@.len(),
                        found ==> j < fields@.len() && fields@[j as int].0 == c,
                        forall|t: int| 0 <= t < j ==> fields@[t].0 != c,
                    decreases (fields@.len() - j) * 2 + (if found {
                        0int
                    } else {
                        1int
                    }),
                {
                    if fields[j].0 == c {
                        found = true;
                    } else {
                        j = j + 1;
                    }
                }
                if found {
                    let ghost old_fields = fields@;
                    let prior: u64 = fields[j].1.to_64();
                    proof {
                        lemma_field_value_bound(value, w, prev, c);
                        assert(pos + 1 <= w);
                        assert(is_field_name(fields@[j as int].0));
                        assert(prior == field_value(value, w, prev, c));
                        if pos < 63 {
                            vstd::arithmetic::power2::lemma_pow2_strictly_increases(pos as nat, 63);
                        }
                        lemma2_to64();
                        lemma2_to64_rest();
                        assert(prior < 0x8000_0000_0000_0000u64);
                    }
                    let acc: u64 = (prior << 1u64) | bit;
                    proof {
                        lemma_low_bit(value >> (bit_index as u64));
                        assert(acc == prior * 2 + bit) by (bit_vector)
                            requires
                                prior < 0x8000_0000_0000_0000u64,
                                bit <= 1u64,
                                acc == (prior << 1u64) | bit,
                        ;
                        vstd::arithmetic::power2::lemma_pow2_unfold((pos + 1) as nat);
                        lemma_field_value_bound(value, w, next, c);
                        if pos + 1 < w {
                            vstd::arithmetic::power2::lemma_pow2_strictly_increases(
                                (pos + 1) as nat,
                                w,
                            );
                        }
                    }
                    let updated = T::new(acc);
                    proof {
                        assert(next.len() == pos + 1);
                        assert(field_value(value, w, next, c) == prior * 2 + bit);
                        lemma_small_mod(acc as nat, pow2(w));
                    }
                    fields[j] = (c, updated);
                    proof {
                        at = j as int;
                        assert forall|t: int| 0 <= t < fields@.len() && t != j implies fields@[t]
                            == old_fields[t] by {}
                    }
                } else {
                    proof {
                        lemma_low_bit(value >> (bit_index as u64));
                        lemma2_to64();
                        lemma2_to64_rest();
                        lemma_small_mod(bit as nat, pow2(w));
                        assert(!prev.contains(c)) by {
                            if prev.contains(c) {
                                let t = choose|t: int| 0 <= t < fields@.len() && fields@[t].0 == c;
                                assert(fields@[t].0 != c);
                            }
                        }
                        assert(field_value(value, w, prev, c) == 0) by {
                            lemma_field_value_zero(value, w, prev, c);
                        }
                    }
                    let fresh = T::new(bit);
                    fields.push((c, fresh));
                    proof {
                        at = fields@.len() - 1;
                    }
                }
            }
            proof {
                assert forall|k: char|
                    is_field_name(k) && next.contains(k) implies exists|j: int|
                    0 <= j < fields@.len() && fields@[j].0 == k by {
                    if k == c {
                        assert(fields@[at].0 == c);
                    } else {
                        assert(prev.contains(k));
                        let t = choose|t: int| 0 <= t < before.len() && before[t].0 == k;
                        assert(fields@[t].0 == k);
                    }
                }
            }
            pos = pos + 1;
        }
        i = i + 1;
    }
    assert(format@.subrange(0, n as int) =~= format@);
    let r = BitFields { fields };
    proof {
        assert forall|k: char| #[trigger] r.spec_get(k) is Some == (is_field_name(k) && q.contains(k)) by {
            lemma_lookup_distinct(r.fields@, k);
        }
        assert forall|k: char| (#[trigger] r.spec_get(k)) is Some implies r.spec_get(k)->Some_0.value()
            == field_value(value, w, q, k) by {
            lemma_lookup_distinct(r.fields@, k);
        }
    }
    Ok(r)
}

/// Characters that name a field in a capture format.
fn is_field_char(c: char) -> (r: bool)
    ensures
        r == is_field_name(c),
{
    c != '0' && c != '1' && c != '_' && c != ' ' && c != '|'
}

/// A name that does not occur in the format has captured nothing.
proof fn lemma_field_value_zero(v: u64, w: nat, q: Seq<char>, k: char)
    requires
        !q.contains(k),
    ensures
        field_value(v, w, q, k) == 0,
    decreases q.len(),
{
    if q.len() > 0 {
        assert(!q.drop_last().contains(k)) by {
            if q.drop_last().contains(k) {
                let t = choose|t: int| 0 <= t < q.drop_last().len() && q.drop_last()[t] == k;
                assert(q[t] == k);
            }
        }
        assert(q.last() != k) by {
            if q.last() == k {
                assert(q[q.len() - 1] == k);
            }
        }
        lemma_field_value_zero(v, w, q.drop_last(), k);
    }
}

proof fn lemma_low_bit(x: u64)
    ensures
        x & 1u64 <= 1u64,
{
    assert(x & 1u64 <= 1u64) by (bit_vector);
}

/// Pattern characters that are tested bits.
pub open spec fn is_literal(c: char) -> bool {
    c == '0' || c == '1'
}

/// The bit a literal asks for.
pub open spec fn literal_bit(c: char) -> nat {
    if c == '1' {
        1
    } else {
        0
    }
}

/// A pattern made only of bit positions: no separators.
pub open spec fn is_plain_pattern(p: Seq<char>) -> bool {
    forall|i: int| 0 <= i < p.len() ==> #[trigger] p[i] != ' ' && p[i] != '|'
}

/// Every literal of `q` equals the bit of `v` under it, when the last position
/// of `q` lies over bit `s`.
pub open spec fn literals_agree(v: u64, q: Seq<char>, s: int) -> bool {
    forall|i: int|
        0 <= i < q.len() && is_literal(#[trigger] q[i]) ==> bit_at(v, s + q.len() - 1 - i)
            == literal_bit(q[i])
}

proof fn lemma_strip_plain(p: Seq<char>)
    requires
        is_plain_pattern(p),
    ensures
        strip_separators(p) == p,
    decreases p.len(),
{
    if p.len() > 0 {
        assert(p[p.len() - 1] != ' ');
        assert(is_plain_pattern(p.drop_last())) by {
            assert forall|i: int| 0 <= i < p.drop_last().len() implies #[trigger] p.drop_last()[i]
                != ' ' && p.drop_last()[i] != '|' by {
                assert(p.drop_last()[i] == p[i]);
            }
        }
        lemma_strip_plain(p.drop_last());
        assert(p.drop_last().push(p.last()) =~= p);
    }
}

proof fn lemma_one_bit(v: u64, mb: u64, cb: u64, s: u64)
    requires
        s < 64,
        mb <= 1,
        cb <= mb,
    ensures
        ((v & (mb << s)) == (cb << s)) <==> (mb == 1 ==> ((v >> s) & 1u64) == cb),
{
    assert(((v & (mb << s)) == (cb << s)) <==> (mb == 1 ==> ((v >> s) & 1u64) == cb))
        by (bit_vector)
        requires
            s < 64,
            mb <= 1,
            cb <= mb,
    ;
}

proof fn lemma_split_low_bit(v: u64, m: u64, c: u64, mb: u64, cb: u64, s: u64)
    requires
        s < 63,
        mb <= 1,
        cb <= 1,
    ensures
        ((v & (((m << 1u64) | mb) << s)) == (((c << 1u64) | cb) << s)) <==> ((v & (m << (
        (s + 1) as u64))) == (c << ((s + 1) as u64)) && (v & (mb << s)) == (cb << s)),
{
    assert(((v & (((m << 1u64) | mb) << s)) == (((c << 1u64) | cb) << s)) <==> ((v & (m << ((s
        + 1) as u64))) == (c << ((s + 1) as u64)) && (v & (mb << s)) == (cb << s)))
        by (bit_vector)
        requires
            s < 63,
            mb <= 1,
            cb <= 1,
    ;
}

/// The scanned code and mask of a separator-free pattern, placed with its last
/// position over bit `s`, test exactly its literals against the bits under them.
proof fn lemma_scan_positions(v: u64, q: Seq<char>, s: int)
    requires
        q.len() > 0,
        0 <= s,
        s + q.len() <= 64,
    ensures
        scan(q).length == q.len(),
        ((v & shl64(scan(q).mask, s)) == shl64(scan(q).code, s)) <==> literals_agree(v, q, s),
    decreases q.len(),
{
    let n = q.len();
    let ch = q.last();
    let p = q.drop_last();
    assert(q[n - 1] == ch);
    let mb: u64 = if is_literal(ch) {
        1
    } else {
        0
    };
    let cb: u64 = if ch == '1' {
        1
    } else {
        0
    };
    lemma_low_bit(v >> (s as u64));
    lemma_one_bit(v, mb, cb, s as u64);
    if n == 1 {
        assert(p.len() == 0);
        assert(scan(p) == PatternScan { code: 0, mask: 0, length: 0 });
        assert((0u64 << 1u64) | 1u64 == 1u64 && (0u64 << 1u64) == 0u64) by (bit_vector);
        assert(scan(q).code == cb);
        assert(scan(q).mask == mb);
        if literals_agree(v, q, s) {
            if mb == 1 {
                assert(is_literal(q[0]));
            }
        }
    } else {
        lemma_scan_positions(v, p, s + 1);
        let sp = scan(p);
        assert(scan(q).code == ((sp.code << 1u64) | cb)) by {
            if ch != '1' {
                let x = sp.code << 1u64;
                assert(x | 0u64 == x) by (bit_vector);
            }
        }
        assert(scan(q).mask == ((sp.mask << 1u64) | mb)) by {
            if !is_literal(ch) {
                let x = sp.mask << 1u64;
                assert(x | 0u64 == x) by (bit_vector);
            }
        }
        lemma_split_low_bit(v, sp.mask, sp.code, mb, cb, s as u64);
        assert(literals_agree(v, q, s) <==> (literals_agree(v, p, s + 1) && (mb == 1 ==> bit_at(
            v,
            s,
        ) == cb))) by {
            if literals_agree(v, q, s) {
                assert forall|i: int|
                    0 <= i < p.len() && is_literal(#[trigger] p[i]) implies bit_at(
                    v,
                    s + 1 + p.len() - 1 - i,
                ) == literal_bit(p[i]) by {
                    assert(q[i] == p[i]);
                }
                if mb == 1 {
                    assert(is_literal(q[n - 1]));
                }
            }
            if literals_agree(v, p, s + 1) && (mb == 1 ==> bit_at(v, s) == cb) {
                assert forall|i: int|
                    0 <= i < q.len() && is_literal(#[trigger] q[i]) implies bit_at(
                    v,
                    s + q.len() - 1 - i,
                ) == literal_bit(q[i]) by {
                    if i < n - 1 {
                        assert(p[i] == q[i]);
                    }
                }
            }
        }
    }
}

/// Removing separators leaves a pattern without separators, no longer than before.
proof fn lemma_strip_is_plain(p: Seq<char>)
    ensures
        is_plain_pattern(strip_separators(p)),
        strip_separators(p).len() <= p.len(),
    decreases p.len(),
{
    if p.len() > 0 {
        lemma_strip_is_plain(p.drop_last());
        let q = strip_separators(p.drop_last());
        if !is_separator(p.last()) {
            assert forall|i: int| 0 <= i < q.push(p.last()).len() implies #[trigger] q.push(
                p.last(),
            )[i] != ' ' && q.push(p.last())[i] != '|' by {
                if i < q.len() {
                    assert(q.push(p.last())[i] == q[i]);
                }
            }
        }
    }
}

/// A pattern matches as its separator-free form does.
proof fn lemma_strip_twice(p: Seq<char>)
    ensures
        strip_separators(strip_separators(p)) == strip_separators(p),
        strip_separators(p).len() > 0 ==> p.len() > 0,
{
    lemma_strip_is_plain(p);
    lemma_strip_plain(strip_separators(p));
}

/// For any width, a pattern whose positions (separators removed) are at most
/// that many matches the top bits exactly when each literal equals the bit
/// under it, counting positions from the most-significant bit down. Separators
/// never change the outcome, and neither do the wildcards between literals.
pub proof fn lemma_upper_match_literals<T: BitCode>(x: T, p: Seq<char>)
    requires
        0 < strip_separators(p).len() <= T::width(),
    ensures
        upper_match(x.value(), T::width(), p) == upper_match(
            x.value(),
            T::width(),
            strip_separators(p),
        ),
        upper_match(x.value(), T::width(), p) <==> forall|i: int|
            0 <= i < strip_separators(p).len() && is_literal(#[trigger] strip_separators(p)[i])
                ==> bit_at(x.value(), T::width() - 1 - i) == literal_bit(strip_separators(p)[i]),
{
    x.lemma_value_fits();
    lemma_strip_twice(p);
    let q = strip_separators(p);
    lemma_scan_positions(x.value(), q, T::width() - q.len());
}

/// The empty pattern matches no value; a pattern of wildcards as long as the
/// width matches every value.
pub proof fn lemma_upper_match_empty_and_wildcards<T: BitCode>(x: T, p: Seq<char>)
    requires
        p.len() == T::width(),
        forall|i: int| 0 <= i < p.len() ==> !is_literal(#[trigger] p[i]) && p[i] != ' ' && p[i] != '|',
    ensures
        !upper_match(x.value(), T::width(), Seq::<char>::empty()),
        upper_match(x.value(), T::width(), p),
{
    x.lemma_value_fits();
    assert(is_plain_pattern(p));
    lemma_strip_plain(p);
    lemma_upper_match_literals(x, p);
}

/// A lower match tests only the bottom bits, one per pattern position
/// (separators removed), whatever the width of the value: each literal equals
/// the bit under it, the last position lying over bit 0. Separators never
/// change the outcome.
pub proof fn lemma_lower_match_literals(v: u64, p: Seq<char>)
    requires
        0 < strip_separators(p).len() <= 64,
    ensures
        lower_match(v, p) == lower_match(v, strip_separators(p)),
        lower_match(v, p) <==> forall|i: int|
            0 <= i < strip_separators(p).len() && is_literal(#[trigger] strip_separators(p)[i])
                ==> bit_at(v, strip_separators(p).len() - 1 - i) == literal_bit(
                strip_separators(p)[i],
            ),
{
    lemma_strip_twice(p);
    let q = strip_separators(p);
    lemma_scan_positions(v, q, 0);
    lemma_shl_zero(scan(q).mask);
    lemma_shl_zero(scan(q).code);
}

proof fn lemma_shl_zero(x: u64)
    ensures
        x << 0u64 == x,
{
    assert(x << 0u64 == x) by (bit_vector);
}

/// An exclude pattern that matches rejects the value, whatever the allow list
/// holds; an empty exclude list rejects nothing.
pub proof fn lemma_exclude_wins(v: u64, w: nat, allow: Seq<char>, exclude: Seq<char>, k: int)
    requires
        0 <= k < split_bars(exclude).len(),
        upper_match(v, w, split_bars(exclude)[k]),
    ensures
        !guarded_match(v, w, allow, exclude),
        guarded_match(v, w, allow, Seq::<char>::empty()) == any_upper_match(v, w, allow),
{
    let e = split_bars(Seq::<char>::empty());
    assert(e.len() == 1);
    assert(!upper_match(v, w, e[0]));
}

/// A field whose name fills exactly positions `p..p + k` of a format with one
/// character per bit captures the `k` bits of the value under those
/// positions, the most significant first.
pub proof fn lemma_field_run(v: u64, w: nat, q: Seq<char>, c: char, p: int, k: int)
    requires
        0 <= p,
        0 <= k,
        p + k <= q.len() <= w <= 64,
        forall|i: int| 0 <= i < q.len() ==> ((#[trigger] q[i]) == c <==> p <= i < p + k),
    ensures
        field_value(v, w, q, c) == (v as nat / pow2((w - p - k) as nat)) % pow2(k as nat),
    decreases q.len(),
{
    vstd::arithmetic::power2::lemma_pow2_pos((w - p - k) as nat);
    vstd::arithmetic::power2::lemma_pow2_pos(k as nat);
    let n = q.len();
    if n > 0 {
        assert(q[n - 1] == q.last());
    }
    if n > p + k {
        let r = q.drop_last();
        assert forall|i: int| 0 <= i < r.len() implies ((#[trigger] r[i]) == c <==> p <= i < p
            + k) by {
            assert(r[i] == q[i]);
        }
        lemma_field_run(v, w, r, c, p, k);
    } else if k == 0 {
        assert(!q.contains(c)) by {
            if q.contains(c) {
                let t = choose|t: int| 0 <= t < q.len() && q[t] == c;
                assert(q[t] == c);
            }
        }
        lemma_field_value_zero(v, w, q, c);
        vstd::arithmetic::power2::lemma2_to64();
    } else {
        let r = q.drop_last();
        assert forall|i: int| 0 <= i < r.len() implies ((#[trigger] r[i]) == c <==> p <= i < p
            + k - 1) by {
            assert(r[i] == q[i]);
        }
        lemma_field_run(v, w, r, c, p, k - 1);
        let sft = (w - p - k) as nat;
        let y = v as nat / pow2(sft);
        vstd::arithmetic::power2::lemma_pow2_pos(sft);
        vstd::arithmetic::power2::lemma_pow2_pos((k - 1) as nat);
        vstd::arithmetic::power2::lemma_pow2_unfold(sft + 1);
        vstd::arithmetic::power2::lemma_pow2_unfold(k as nat);
        vstd::arithmetic::div_mod::lemma_div_denominator(v as int, pow2(sft) as int, 2);
        assert(pow2(sft + 1) == pow2(sft) * 2);
        assert(v as nat / pow2(sft + 1) == y / 2);
        vstd::arithmetic::div_mod::lemma_mod_breakdown(y as int, 2, pow2((k - 1) as nat) as int);
        assert(pow2(k as nat) == 2 * pow2((k - 1) as nat));
        vstd::bits::lemma_u64_shr_is_div(v, sft as u64);
        let z = v >> (sft as u64);
        assert(z & 1u64 == z % 2) by (bit_vector);
        assert(bit_at(v, w - n) == y % 2);
    }
}

/// The capture format with eight positions each of `a`, `b`, `c` and `d`.
pub open spec fn byte_fields_format() -> Seq<char> {
    Seq::new(
        32,
        |i: int|
            if i < 8 {
                'a'
            } else if i < 16 {
                'b'
            } else if i < 24 {
                'c'
            } else {
                'd'
            },
    )
}

/// Capturing a word with the four-byte format gives its bytes, most
/// significant first, and the four fields put back together give the word.
pub proof fn lemma_capture_bytes(x: u32)
    ensures
        field_value(x as u64, 32, byte_fields_format(), 'a') == x / 0x100_0000,
        field_value(x as u64, 32, byte_fields_format(), 'b') == (x / 0x1_0000) % 0x100,
        field_value(x as u64, 32, byte_fields_format(), 'c') == (x / 0x100) % 0x100,
        field_value(x as u64, 32, byte_fields_format(), 'd') == x % 0x100,
        field_value(x as u64, 32, byte_fields_format(), 'a') * 0x100_0000 + field_value(
            x as u64,
            32,
            byte_fields_format(),
            'b',
        ) * 0x1_0000 + field_value(x as u64, 32, byte_fields_format(), 'c') * 0x100
            + field_value(x as u64, 32, byte_fields_format(), 'd') == x,
{
    let q = byte_fields_format();
    let v = x as u64;
    lemma2_to64();
    lemma_field_run(v, 32, q, 'a', 0, 8);
    lemma_field_run(v, 32, q, 'b', 8, 8);
    lemma_field_run(v, 32, q, 'c', 16, 8);
    lemma_field_run(v, 32, q, 'd', 24, 8);
    assert(pow2(0) == 1);
    assert(x as nat / 1 == x as nat);
    assert(field_value(v, 32, q, 'd') == x % 0x100);
    assert((x / 0x100_0000) % 0x100 == x / 0x100_0000) by (bit_vector);
    assert((x / 0x100_0000) * 0x100_0000 + ((x / 0x1_0000) % 0x100) * 0x1_0000 + ((x / 0x100)
        % 0x100) * 0x100 + x % 0x100 == x) by (bit_vector);
}

/// The four-byte format as written is, once separators are removed, the
/// format of the byte lemma.
pub proof fn lemma_byte_format_text()
    ensures
        strip_separators("aaaaaaaabbbbbbbbccccccccdddddddd"@) == byte_fields_format(),
{
    reveal_strlit("aaaaaaaabbbbbbbbccccccccdddddddd");
    let t = "aaaaaaaabbbbbbbbccccccccdddddddd"@;
    assert(t =~= byte_fields_format());
    lemma_strip_plain(t);
}

} // verus!
