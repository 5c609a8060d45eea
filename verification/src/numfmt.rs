//! Integer replacements for `{:.1}`-style formatting of scaled byte counts:
//! division by a power of two, rounded half to even, rendered in decimal.

use vstd::prelude::*;
use vstd::arithmetic::power2::{pow2, lemma_pow2_pos, lemma_pow2_unfold, lemma_pow2_adds,
    lemma_pow2_strictly_increases, lemma2_to64, lemma2_to64_rest};
use vstd::string::{StrSliceExecFns, StringExecFns};
use crate::text::{decimal, digit_char, push_decimal, digit_string_of};

verus! {

/// `num / denom` rounded to the nearest integer, ties to even.
pub open spec fn round_half_even(num: nat, denom: nat) -> nat
    recommends
        denom > 0,
{
    let q = num / denom;
    let rem = num % denom;
    if 2 * rem > denom || (2 * rem == denom && q % 2 == 1) {
        q + 1
    } else {
        q
    }
}

/// `num / 2^d` rounded half to even; 0 once the divisor leaves `u128`.
pub open spec fn spec_round_half_even_div(num: nat, d: nat) -> nat {
    if d == 0 {
        num
    } else if d >= 128 {
        0
    } else {
        round_half_even(num, pow2(d))
    }
}

proof fn lemma_pow2_127_fits()
    ensures
        pow2(127) < u128::MAX,
        pow2(127) * 2 <= u128::MAX + 1,
{
    lemma2_to64();
    lemma2_to64_rest();
    lemma_pow2_adds(64, 63);
    let a = pow2(64);
    let b = pow2(63);
    assert(a * b == 0x8000_0000_0000_0000_0000_0000_0000_0000nat) by (nonlinear_arith)
        requires
            a == 0x1_0000_0000_0000_0000nat,
            b == 0x8000_0000_0000_0000nat,
    {}
}

/// `2^d` for `d < 128`.
fn pow2_u128(d: u32) -> (p: u128)
    requires
        d < 128,
    ensures
        p as nat == pow2(d as nat),
{
    let mut p: u128 = 1;
    let mut i: u32 = 0;
    proof {
        lemma2_to64();
    }
    while i < d
        invariant
            i <= d < 128,
            p as nat == pow2(i as nat),
        decreases d - i,
    {
        proof {
            lemma_pow2_unfold((i + 1) as nat);
            lemma_pow2_127_fits();
            if i + 1 < 127 {
                lemma_pow2_strictly_increases((i + 1) as nat, 127);
            }
        }
        p = p * 2;
        i = i + 1;
    }
    p
}

/// `num / 2^d`, ties to even.
pub fn round_half_even_div(num: u128, d: u32) -> (r: u128)
    ensures
        r as nat == spec_round_half_even_div(num as nat, d as nat),
{
    if d == 0 {
        return num;
    }
    if d >= 128 {
        return 0;
    }
    let denom = pow2_u128(d);
    proof {
        lemma_pow2_pos(d as nat);
        lemma_pow2_127_fits();
        if d < 127 {
            lemma_pow2_strictly_increases(d as nat, 127);
        }
    }
    let q = num / denom;
    let rem = num % denom;
    assert(q as nat * denom as nat <= num) by (nonlinear_arith)
        requires
            q == num / denom,
            denom > 0,
    {}
    assert(denom >= 2 ==> q <= num / 2) by (nonlinear_arith)
        requires
            q == num / denom,
            denom > 0,
    {}
    let doubled = rem * 2;
    if doubled > denom || (doubled == denom && q % 2 == 1) {
        q + 1
    } else {
        q
    }
}

/// Rounding lands within half a divisor of the exact quotient.
pub proof fn round_half_even_is_nearest(num: nat, denom: nat)
    requires
        denom > 0,
    ensures
        2 * num <= 2 * round_half_even(num, denom) * denom + denom,
        2 * round_half_even(num, denom) * denom <= 2 * num + denom,
{
    let q = num / denom;
    let rem = num % denom;
    assert(num == q * denom + rem) by (nonlinear_arith)
        requires
            denom > 0,
            q == num / denom,
            rem == num % denom,
    {}
    let r = round_half_even(num, denom);
    assert(2 * r * denom == 2 * (r * denom)) by (nonlinear_arith);
    if r == q {
        assert(2 * (q * denom) + 2 * rem == 2 * num);
    } else {
        assert(r * denom == q * denom + denom) by (nonlinear_arith)
            requires
                r == q + 1,
        {}
    }
}

/// Exact quotients are returned unchanged.
pub proof fn round_half_even_exact(num: nat, denom: nat)
    requires
        denom > 0,
        num % denom == 0,
    ensures
        round_half_even(num, denom) == num / denom,
{
}

/// `tenths / 10` "." `tenths % 10`.
pub open spec fn one_decimal(tenths: nat) -> Seq<char> {
    decimal(tenths / 10).push('.').push(digit_char(tenths % 10))
}

/// `bytes / 2^divisor_pow2` with one decimal ("13.4"), ties to even.
pub open spec fn spec_scaled_bytes(bytes: u64, divisor_pow2: u32) -> Seq<char> {
    one_decimal(spec_round_half_even_div(bytes as nat * 10, divisor_pow2 as nat))
}

fn push_one_decimal(out: &mut String, tenths: u128)
    ensures
        final(out)@ == old(out)@ + one_decimal(tenths as nat),
{
    push_decimal(out, tenths / 10);
    proof {
        reveal_strlit(".");
    }
    out.append(".");
    let d = digit_string_of((tenths % 10) as u8);
    out.append(d);
    assert(out@ =~= old(out)@ + one_decimal(tenths as nat));
}

/// `(bytes / 2^divisor_pow2)` with one decimal, ties to even.
pub fn scaled_bytes(bytes: u64, divisor_pow2: u32) -> (s: String)
    ensures
        s@ == spec_scaled_bytes(bytes, divisor_pow2),
{
    let mut s = String::new();
    scaled_bytes_into(&mut s, bytes, divisor_pow2);
    s
}

/// [`scaled_bytes`] writing into a caller-owned string (previous contents
/// are discarded).
pub fn scaled_bytes_into(buf: &mut String, bytes: u64, divisor_pow2: u32)
    ensures
        final(buf)@ == spec_scaled_bytes(bytes, divisor_pow2),
{
    let tenths = round_half_even_div(bytes as u128 * 10, divisor_pow2);
    *buf = String::new();
    push_one_decimal(buf, tenths);
    assert(buf@ =~= spec_scaled_bytes(bytes, divisor_pow2));
}

/// `(bytes / 2^divisor_pow2)` rounded to an integer, ties to even.
pub fn scaled_bytes_round0(bytes: u64, divisor_pow2: u32) -> (s: String)
    ensures
        s@ == decimal(spec_round_half_even_div(bytes as nat, divisor_pow2 as nat)),
{
    let mut s = String::new();
    push_decimal(&mut s, round_half_even_div(bytes as u128, divisor_pow2));
    assert(s@ =~= decimal(spec_round_half_even_div(bytes as nat, divisor_pow2 as nat)));
    s
}

// ============================================================================
// Doubles, from their bit patterns
// ============================================================================

/// 2^52, the weight of a double's hidden bit.
pub const HIDDEN_BIT: u64 = 4503599627370496;

/// The significand `m` and binary exponent `e` of the finite non-negative
/// double with bit pattern `bits`: it stands for `m * 2^e`.
pub open spec fn double_parts(bits: u64) -> (nat, int) {
    let mantissa = bits % HIDDEN_BIT;
    let biased = (bits / HIDDEN_BIT) % 2048;
    if biased == 0 {
        (mantissa as nat, -1074)
    } else {
        ((mantissa + HIDDEN_BIT) as nat, biased - 1075)
    }
}

/// The double with bit pattern `bits`, times `mul`, rounded to an integer
/// with ties to even.
pub open spec fn spec_exact_scaled(bits: u64, mul: u64) -> nat {
    let (m, e) = double_parts(bits);
    let num = m * (mul as nat);
    if e >= 0 {
        num * pow2(e as nat)
    } else {
        spec_round_half_even_div(num, (-e) as nat)
    }
}

proof fn lemma_pow2_67()
    ensures
        pow2(67) == 0x8_0000_0000_0000_0000nat,
{
    lemma2_to64();
    lemma_pow2_adds(64, 3);
}

/// `value * mul` (mul < 128), rounded to an integer, ties to even, for the
/// double `value` with bit pattern `bits`, computed from its exact
/// significand and exponent so no double rounding can occur.
pub fn exact_scaled(bits: u64, mul: u64) -> (r: u128)
    requires
        bits < 0x8000_0000_0000_0000,
        mul < 128,
        double_parts(bits).1 <= 67,
    ensures
        r as nat == spec_exact_scaled(bits, mul),
{
    let mantissa = bits % HIDDEN_BIT;
    let biased = (bits / HIDDEN_BIT) % 2048;
    let m: u128 = if biased == 0 { mantissa as u128 } else { (mantissa + HIDDEN_BIT) as u128 };
    assert(m < 0x20_0000_0000_0000);
    assert(m * mul < 0x1000_0000_0000_0000) by (nonlinear_arith)
        requires
            m < 0x20_0000_0000_0000,
            mul < 128,
    {}
    let num = m * mul as u128;
    if biased >= 1075 {
        let e = (biased - 1075) as u32;
        let p = pow2_u128(e);
        proof {
            lemma_pow2_67();
            if e < 67 {
                lemma_pow2_strictly_increases(e as nat, 67);
            }
        }
        assert(num * p < 0x8000_0000_0000_0000_0000_0000_0000_0000) by (nonlinear_arith)
            requires
                num < 0x1000_0000_0000_0000,
                p <= 0x8_0000_0000_0000_0000,
        {}
        num * p
    } else {
        let d: u32 = if biased == 0 { 1074 } else { (1075 - biased) as u32 };
        round_half_even_div(num, d)
    }
}

/// `s` padded on the left with spaces to at least `width` characters.
pub open spec fn left_padded(s: Seq<char>, width: nat) -> Seq<char> {
    if s.len() >= width {
        s
    } else {
        Seq::new((width - s.len()) as nat, |_i: int| ' ') + s
    }
}

/// One decimal of a tenths count, right-aligned in `width` columns.
pub fn tenths_text(tenths: u128, width: usize) -> (s: String)
    ensures
        s@ == left_padded(one_decimal(tenths as nat), width as nat),
{
    let mut body = String::new();
    push_one_decimal(&mut body, tenths);
    let len = body.as_str().unicode_len();
    if len >= width {
        return body;
    }
    let mut out = String::new();
    let mut i: usize = 0;
    proof {
        reveal_strlit(" ");
    }
    while i < width - len
        invariant
            len == body@.len(),
            len < width,
            0 <= i <= width - len,
            out@ == Seq::new(i as nat, |_i: int| ' '),
        decreases width - len - i,
    {
        proof {
            reveal_strlit(" ");
        }
        out.append(" ");
        i = i + 1;
        assert(out@ =~= Seq::new(i as nat, |_i: int| ' '));
    }
    out.append(body.as_str());
    out
}

/// `format!("{:width$.1}", value)` for the finite non-negative double
/// `value` with bit pattern `bits`.
pub fn tenths_str(bits: u64, width: usize) -> (s: String)
    requires
        bits < 0x8000_0000_0000_0000,
        double_parts(bits).1 <= 67,
    ensures
        s@ == left_padded(one_decimal(spec_exact_scaled(bits, 10)), width as nat),
{
    tenths_text(exact_scaled(bits, 10), width)
}

/// [`tenths_str`] writing into a caller-owned string (previous contents are
/// discarded).
pub fn tenths_into(buf: &mut String, bits: u64, width: usize)
    requires
        bits < 0x8000_0000_0000_0000,
        double_parts(bits).1 <= 67,
    ensures
        final(buf)@ == left_padded(one_decimal(spec_exact_scaled(bits, 10)), width as nat),
{
    *buf = tenths_str(bits, width);
}

/// `format!("{:.0}", value)` for the finite non-negative double `value` with
/// bit pattern `bits`.
pub fn round0_str(bits: u64) -> (s: String)
    requires
        bits < 0x8000_0000_0000_0000,
        double_parts(bits).1 <= 67,
    ensures
        s@ == decimal(spec_exact_scaled(bits, 1)),
{
    let mut s = String::new();
    push_decimal(&mut s, exact_scaled(bits, 1));
    s
}

} // verus!
