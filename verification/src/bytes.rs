//! Plain byte-level helpers shared by the pipeline: big-endian reads,
//! byte-string slicing, decimal and hexadecimal text, and lexicographic
//! comparison of byte strings.

use vstd::prelude::*;

verus! {

/// Big-endian 16-bit value formed from two bytes.
pub open spec fn be16(hi: u8, lo: u8) -> u16 {
    (hi as u16 * 256 + lo as u16) as u16
}

/// Reads the big-endian 16-bit value at `at` and `at + 1`.
pub fn read_be16(bytes: &Vec<u8>, at: usize) -> (r: u16)
    requires
        at + 1 < bytes@.len(),
    ensures
        r == be16(bytes@[at as int], bytes@[at + 1]),
{
    let _len = bytes.len();  // the length fits in usize, so indices below it do too
    bytes[at] as u16 * 256 + bytes[at + 1] as u16
}

/// Copies `bytes[from..to]` into a fresh vector.
pub fn slice_range(bytes: &Vec<u8>, from: usize, to: usize) -> (r: Vec<u8>)
    requires
        from <= to <= bytes@.len(),
    ensures
        r@ == bytes@.subrange(from as int, to as int),
{
    let mut r: Vec<u8> = Vec::new();
    let mut i = from;
    while i < to
        invariant
            from <= i <= to <= bytes@.len(),
            r@ == bytes@.subrange(from as int, i as int),
        decreases to - i,
    {
        r.push(bytes[i]);
        i = i + 1;
        proof {
            assert(r@ =~= bytes@.subrange(from as int, i as int));
        }
    }
    r
}

// ---------------------------------------------------------------------
// Decimal text
// ---------------------------------------------------------------------

/// The byte is an ASCII decimal digit.
pub open spec fn is_dec_digit(b: u8) -> bool {
    48 <= b <= 57
}

/// Every byte of `s` is an ASCII decimal digit.
pub open spec fn all_dec_digits(s: Seq<u8>) -> bool {
    forall|i: int| 0 <= i < s.len() ==> is_dec_digit(#[trigger] s[i])
}

/// Numeric value of a run of decimal digit bytes, most significant first.
pub open spec fn dec_value(s: Seq<u8>) -> int
    decreases s.len(),
{
    if s.len() == 0 {
        0
    } else {
        dec_value(s.drop_last()) * 10 + (s.last() - 48)
    }
}

/// Canonical decimal text of a nonnegative integer, without leading zeros.
pub open spec fn dec_text(n: nat) -> Seq<u8>
    decreases n,
{
    if n < 10 {
        seq![(48 + n) as u8]
    } else {
        dec_text(n / 10).push((48 + n % 10) as u8)
    }
}

/// Formats `n` as decimal text.
pub fn format_u64(n: u64) -> (r: Vec<u8>)
    ensures
        r@ == dec_text(n as nat),
    decreases n,
{
    if n < 10 {
        let mut r: Vec<u8> = Vec::new();
        r.push(48 + n as u8);
        proof {
            assert(r@ =~= dec_text(n as nat));
        }
        r
    } else {
        let mut r = format_u64(n / 10);
        r.push(48 + (n % 10) as u8);
        proof {
            assert(r@ =~= dec_text(n as nat));
        }
        r
    }
}

/// Power of ten.
pub open spec fn pow10(k: nat) -> int
    decreases k,
{
    if k == 0 {
        1
    } else {
        10 * pow10((k - 1) as nat)
    }
}

/// The powers of ten up to nine digits, spelled out.
pub proof fn lemma_pow10_values()
    ensures
        pow10(0) == 1,
        pow10(1) == 10,
        pow10(2) == 100,
        pow10(3) == 1000,
        pow10(4) == 10000,
        pow10(5) == 100000,
        pow10(6) == 1000000,
        pow10(7) == 10000000,
        pow10(8) == 100000000,
        pow10(9) == 1000000000,
{
    reveal_with_fuel(pow10, 11);
}

/// Powers of ten grow with the exponent.
pub proof fn lemma_pow10_increases(a: nat, b: nat)
    requires
        a <= b,
    ensures
        0 < pow10(a) <= pow10(b),
    decreases b,
{
    if b > 0 {
        if a == b {
            lemma_pow10_increases((a - 1) as nat, (b - 1) as nat);
        } else {
            lemma_pow10_increases(a, (b - 1) as nat);
        }
    }
}

/// Multiplying powers of ten adds the exponents.
pub proof fn lemma_pow10_adds(a: nat, b: nat)
    ensures
        pow10(a) * pow10(b) == pow10((a + b) as nat),
    decreases a,
{
    if a == 0 {
        assert(pow10(0) * pow10(b) == pow10(b));
    } else {
        lemma_pow10_adds((a - 1) as nat, b);
        assert((10 * pow10((a - 1) as nat)) * pow10(b) == 10 * (pow10((a - 1) as nat) * pow10(b)))
            by (nonlinear_arith);
    }
}

/// A digit run's value is below ten to its length.
pub proof fn lemma_dec_value_bound(s: Seq<u8>)
    requires
        all_dec_digits(s),
    ensures
        0 <= dec_value(s) < pow10(s.len()),
    decreases s.len(),
{
    if s.len() > 0 {
        assert(all_dec_digits(s.drop_last()));
        lemma_dec_value_bound(s.drop_last());
    }
}

/// Fixed-width decimal text: the low `width` digits of `n`, zero-padded.
pub open spec fn fixed_dec(n: int, width: nat) -> Seq<u8>
    decreases width,
{
    if width == 0 {
        Seq::empty()
    } else {
        fixed_dec(n / 10, (width - 1) as nat).push((48 + n % 10) as u8)
    }
}

/// Fixed-width decimal text is all digits and denotes the value modulo
/// ten to the width.
pub proof fn lemma_fixed_dec(n: int, width: nat)
    requires
        0 <= n,
    ensures
        fixed_dec(n, width).len() == width,
        all_dec_digits(fixed_dec(n, width)),
        dec_value(fixed_dec(n, width)) == n % pow10(width),
    decreases width,
{
    if width == 0 {
        assert(n % 1 == 0);
    } else {
        lemma_fixed_dec(n / 10, (width - 1) as nat);
        let s = fixed_dec(n, width);
        assert(s.drop_last() =~= fixed_dec(n / 10, (width - 1) as nat));
        lemma_pow10_increases(0, (width - 1) as nat);
        vstd::arithmetic::div_mod::lemma_breakdown(n, 10, pow10((width - 1) as nat));
    }
}

/// Reads the decimal value of `bytes[from..to]`, at most nine digits.
pub fn read_dec(bytes: &Vec<u8>, from: usize, to: usize) -> (r: u32)
    requires
        from <= to <= bytes@.len(),
        to - from <= 9,
        all_dec_digits(bytes@.subrange(from as int, to as int)),
    ensures
        r == dec_value(bytes@.subrange(from as int, to as int)),
        r < pow10((to - from) as nat),
{
    proof {
        lemma_pow10_values();
    }
    let mut acc: u32 = 0;
    let mut i = from;
    while i < to
        invariant
            from <= i <= to <= bytes@.len(),
            to - from <= 9,
            all_dec_digits(bytes@.subrange(from as int, to as int)),
            acc == dec_value(bytes@.subrange(from as int, i as int)),
            acc < pow10((i - from) as nat),
        decreases to - i,
    {
        proof {
            lemma_pow10_values();
            lemma_pow10_increases((i - from) as nat, 8);
            assert(bytes@.subrange(from as int, i + 1).drop_last() =~= bytes@.subrange(
                from as int,
                i as int,
            ));
            assert(is_dec_digit(bytes@.subrange(from as int, to as int)[i - from]));
        }
        acc = acc * 10 + (bytes[i] - 48) as u32;
        i = i + 1;
    }
    proof {
        lemma_dec_value_bound(bytes@.subrange(from as int, to as int));
    }
    acc
}

/// Appends a copy of `src` to `out`.
pub fn push_all(out: &mut Vec<u8>, src: &Vec<u8>)
    ensures
        final(out)@ == old(out)@ + src@,
{
    let ghost orig: Seq<u8> = out@;
    let mut i: usize = 0;
    while i < src.len()
        invariant
            0 <= i <= src@.len(),
            out@ == orig + src@.subrange(0, i as int),
        decreases src@.len() - i,
    {
        out.push(src[i]);
        i = i + 1;
        proof {
            assert(out@ =~= orig + src@.subrange(0, i as int));
        }
    }
    proof {
        assert(orig + src@.subrange(0, src@.len() as int) =~= orig + src@);
    }
}

/// Decimal text always parses back to the number it was made from: a
/// stored decimal field loses nothing.
pub proof fn lemma_dec_text_value(n: nat)
    ensures
        dec_text(n).len() >= 1,
        all_dec_digits(dec_text(n)),
        dec_value(dec_text(n)) == n,
    decreases n,
{
    if n < 10 {
        let s = dec_text(n);
        assert(s.drop_last() =~= Seq::<u8>::empty());
        assert(dec_value(Seq::<u8>::empty()) == 0);
    } else {
        lemma_dec_text_value(n / 10);
        let s = dec_text(n);
        assert(s.drop_last() =~= dec_text(n / 10));
    }
}

/// The digit run is nonempty and denotes a value that fits in an `i64`.
pub open spec fn fits_dec_i64(s: Seq<u8>) -> bool {
    s.len() > 0 && all_dec_digits(s) && dec_value(s) <= i64::MAX
}

/// A run of digits denotes a nonnegative value.
pub proof fn lemma_dec_value_nonneg(s: Seq<u8>)
    requires
        all_dec_digits(s),
    ensures
        dec_value(s) >= 0,
    decreases s.len(),
{
    if s.len() > 0 {
        assert(all_dec_digits(s.drop_last()));
        lemma_dec_value_nonneg(s.drop_last());
    }
}

/// Extending a digit run never lowers its value.
pub proof fn lemma_dec_value_prefix_le(s: Seq<u8>, j: int)
    requires
        all_dec_digits(s),
        0 <= j <= s.len(),
    ensures
        dec_value(s.take(j)) <= dec_value(s),
    decreases s.len() - j,
{
    if j < s.len() {
        lemma_dec_value_prefix_le(s, j + 1);
        assert(s.take(j + 1).drop_last() =~= s.take(j));
        assert(all_dec_digits(s.take(j)));
        lemma_dec_value_nonneg(s.take(j));
        assert(dec_value(s.take(j + 1)) == dec_value(s.take(j)) * 10 + (s[j] - 48));
    } else {
        assert(s.take(j) =~= s);
    }
}

/// Parses an unsigned decimal byte string into an `i64`.
///
/// Returns `Some` exactly when the string is a nonempty run of digits
/// whose value fits in an `i64`; a sign, any other byte, or a too large
/// value is rejected.
pub fn parse_dec_i64(s: &Vec<u8>) -> (r: Option<i64>)
    ensures
        match r {
            Some(v) => fits_dec_i64(s@) && v == dec_value(s@) && v >= 0,
            None => !fits_dec_i64(s@),
        },
{
    if s.len() == 0 {
        return None;
    }
    let mut acc: i64 = 0;
    let mut i: usize = 0;
    while i < s.len()
        invariant
            0 <= i <= s@.len(),
            all_dec_digits(s@.take(i as int)),
            acc == dec_value(s@.take(i as int)),
            0 <= acc,
        decreases s@.len() - i,
    {
        let b = s[i];
        if b < 48 || b > 57 {
            return None;
        }
        proof {
            assert(s@.take(i + 1).drop_last() =~= s@.take(i as int));
            assert(all_dec_digits(s@.take(i + 1)));
        }
        let digit = (b - 48) as i64;
        let next = match acc.checked_mul(10) {
            Some(m) => m.checked_add(digit),
            None => None,
        };
        match next {
            Some(v) => {
                acc = v;
            },
            None => {
                // The prefix already exceeds `i64::MAX`, so the whole
                // run does too.
                proof {
                    if all_dec_digits(s@) {
                        lemma_dec_value_prefix_le(s@, i + 1);
                    }
                }
                return None;
            },
        }
        i = i + 1;
    }
    proof {
        assert(s@.take(i as int) =~= s@);
    }
    Some(acc)
}

// ---------------------------------------------------------------------
// Hexadecimal text
// ---------------------------------------------------------------------

/// Lower-case hexadecimal digit for a value below 16.
pub open spec fn hex_digit(n: u8) -> u8 {
    if n < 10 {
        (48 + n) as u8
    } else {
        (87 + n) as u8
    }
}

/// Two lower-case hexadecimal digits of a byte.
pub open spec fn hex_byte(b: u8) -> Seq<u8> {
    seq![hex_digit(b / 16), hex_digit(b % 16)]
}

/// Appends the two hexadecimal digits of `b` to `out`.
pub fn push_hex_byte(out: &mut Vec<u8>, b: u8)
    ensures
        final(out)@ == old(out)@ + hex_byte(b),
{
    let hi = b / 16;
    let lo = b % 16;
    out.push(if hi < 10 { 48 + hi } else { 87 + hi });
    out.push(if lo < 10 { 48 + lo } else { 87 + lo });
    proof {
        assert(out@ =~= old(out)@ + hex_byte(b));
    }
}

// ---------------------------------------------------------------------
// Lexicographic order
// ---------------------------------------------------------------------

/// Byte-wise lexicographic order, the order a document store applies to
/// its string range queries.
pub open spec fn lex_le(a: Seq<u8>, b: Seq<u8>) -> bool
    decreases a.len(),
{
    if a.len() == 0 {
        true
    } else if b.len() == 0 {
        false
    } else if a[0] < b[0] {
        true
    } else if a[0] > b[0] {
        false
    } else {
        lex_le(a.skip(1), b.skip(1))
    }
}

/// A shared prefix does not decide the order: it is decided by what
/// follows.
pub proof fn lemma_lex_le_same_prefix(x: Seq<u8>, u: Seq<u8>, v: Seq<u8>)
    ensures
        lex_le(x + u, x + v) == lex_le(u, v),
    decreases x.len(),
{
    if x.len() == 0 {
        assert(x + u =~= u);
        assert(x + v =~= v);
    } else {
        assert((x + u)[0] == x[0]);
        assert((x + v)[0] == x[0]);
        assert((x + u).skip(1) =~= x.skip(1) + u);
        assert((x + v).skip(1) =~= x.skip(1) + v);
        lemma_lex_le_same_prefix(x.skip(1), u, v);
    }
}

/// A digit run's value splits into its leading digit and the rest.
proof fn lemma_dec_value_first(x: Seq<u8>)
    requires
        x.len() >= 1,
        all_dec_digits(x),
    ensures
        all_dec_digits(x.skip(1)),
        dec_value(x) == (x[0] - 48) * pow10((x.len() - 1) as nat) + dec_value(x.skip(1)),
    decreases x.len(),
{
    if x.len() == 1 {
        assert(x.drop_last() =~= Seq::<u8>::empty());
        assert(x.skip(1) =~= Seq::<u8>::empty());
    } else {
        assert(all_dec_digits(x.drop_last()));
        lemma_dec_value_first(x.drop_last());
        assert(x.drop_last().skip(1) =~= x.skip(1).drop_last());
        assert(x.drop_last()[0] == x[0]);
        let k = (x.len() - 2) as nat;
        assert(((x[0] - 48) * pow10(k)) * 10 == (x[0] - 48) * (10 * pow10(k)))
            by (nonlinear_arith);
        assert(dec_value(x.skip(1)) == dec_value(x.skip(1).drop_last()) * 10 + (x.skip(
            1,
        ).last() - 48));
    }
}

/// Between two equal-length digit runs, the one with the smaller value
/// comes first lexicographically, whatever follows either of them.
pub proof fn lemma_lex_concat_lt(x: Seq<u8>, y: Seq<u8>, u: Seq<u8>, v: Seq<u8>)
    requires
        x.len() == y.len(),
        all_dec_digits(x),
        all_dec_digits(y),
        dec_value(x) < dec_value(y),
    ensures
        lex_le(x + u, y + v),
        !lex_le(y + v, x + u),
    decreases x.len(),
{
    lemma_dec_value_bound(x);
    lemma_dec_value_bound(y);
    assert(x.len() >= 1);
    lemma_dec_value_first(x);
    lemma_dec_value_first(y);
    let p = pow10((x.len() - 1) as nat);
    lemma_dec_value_bound(x.skip(1));
    lemma_dec_value_bound(y.skip(1));
    if x[0] == y[0] {
        assert(dec_value(x.skip(1)) < dec_value(y.skip(1)));
        assert((x + u)[0] == (y + v)[0]);
        assert((x + u).skip(1) =~= x.skip(1) + u);
        assert((y + v).skip(1) =~= y.skip(1) + v);
        lemma_lex_concat_lt(x.skip(1), y.skip(1), u, v);
    } else if x[0] < y[0] {
        assert((x + u)[0] == x[0] && (y + v)[0] == y[0]);
    } else {
        // A larger leading digit would force a larger value.
        assert((x[0] - 48) * p >= (y[0] - 48 + 1) * p) by (nonlinear_arith)
            requires
                x[0] > y[0],
                p > 0,
        ;
        assert((y[0] - 48 + 1) * p == (y[0] - 48) * p + p) by (nonlinear_arith);
        assert(dec_value(x) >= dec_value(y));
        assert(false);
    }
}

/// The order is reflexive.
pub proof fn lemma_lex_le_refl(s: Seq<u8>)
    ensures
        lex_le(s, s),
    decreases s.len(),
{
    if s.len() > 0 {
        lemma_lex_le_refl(s.skip(1));
    }
}

/// Equal prefixes do not decide the order: it is decided by the rest.
proof fn lemma_lex_le_common_prefix(a: Seq<u8>, b: Seq<u8>, i: int)
    requires
        0 <= i <= a.len(),
        i <= b.len(),
        forall|j: int| 0 <= j < i ==> a[j] == b[j],
    ensures
        lex_le(a, b) == lex_le(a.skip(i), b.skip(i)),
    decreases i,
{
    if i > 0 {
        assert(a.len() > 0 && b.len() > 0 && a[0] == b[0]);
        lemma_lex_le_common_prefix(a.skip(1), b.skip(1), i - 1);
        assert(a.skip(1).skip(i - 1) =~= a.skip(i));
        assert(b.skip(1).skip(i - 1) =~= b.skip(i));
    } else {
        assert(a.skip(0) =~= a);
        assert(b.skip(0) =~= b);
    }
}

/// Compares two byte strings lexicographically.
pub fn bytes_le(a: &Vec<u8>, b: &Vec<u8>) -> (r: bool)
    ensures
        r == lex_le(a@, b@),
{
    let mut i: usize = 0;
    while i < a.len() && i < b.len()
        invariant
            0 <= i <= a@.len(),
            i <= b@.len(),
            forall|j: int| 0 <= j < i ==> a@[j] == b@[j],
        decreases a@.len() - i,
    {
        if a[i] < b[i] {
            proof {
                lemma_lex_le_common_prefix(a@, b@, i as int);
            }
            return true;
        }
        if a[i] > b[i] {
            proof {
                lemma_lex_le_common_prefix(a@, b@, i as int);
            }
            return false;
        }
        i = i + 1;
    }
    proof {
        lemma_lex_le_common_prefix(a@, b@, i as int);
    }
    a.len() <= b.len()
}

} // verus!
