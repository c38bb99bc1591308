//! Numbers as the store holds them. A 64-bit IEEE-754 number travels as its bit
//! pattern: one sign bit, eleven bits of exponent with a bias of 1023, and 52
//! bits of the significand below its leading one.

use vstd::prelude::*;
use vstd::arithmetic::power2::{
    lemma2_to64, lemma2_to64_rest, lemma_pow2_adds, lemma_pow2_pos, lemma_pow2_strictly_increases,
    lemma_pow2_unfold, pow2,
};
use vstd::string::StringExecFns;

verus! {

/// The exponent of a positive number: the largest `e` with `2^e <= m`.
pub open spec fn exponent_of(m: nat) -> nat
    decreases m,
{
    if m < 2 {
        0
    } else {
        1 + exponent_of(m / 2)
    }
}

/// `m / 2^s`, rounded to the nearest integer, and to the even one of the two
/// where it lies halfway between them.
pub open spec fn round_shift(m: nat, s: nat) -> nat {
    let q = m / pow2(s);
    let r = m % pow2(s);
    if 2 * r > pow2(s) || (2 * r == pow2(s) && q % 2 == 1) {
        q + 1
    } else {
        q
    }
}

/// The number with 53 significant bits that is nearest to a positive integer,
/// as significand and exponent: it is `significand * 2^(exponent - 52)`, with
/// `2^52 <= significand < 2^53`.
pub open spec fn nearest(m: nat) -> (nat, nat) {
    let e = exponent_of(m);
    if e <= 52 {
        (m * pow2((52 - e) as nat), e)
    } else {
        let q = round_shift(m, (e - 52) as nat);
        if q == pow2(53) {
            (pow2(52), e + 1)
        } else {
            (q, e)
        }
    }
}

/// The magnitude of an integer.
pub open spec fn magnitude(i: i64) -> nat {
    if i < 0 {
        (-i) as nat
    } else {
        i as nat
    }
}

/// Bit pattern of the 64-bit IEEE-754 number nearest to the integer `i`, the
/// one with the even significand where two are equally near.
pub open spec fn widened_bits(i: i64) -> u64 {
    if i == 0 {
        0
    } else {
        let (significand, exponent) = nearest(magnitude(i));
        let sign = if i < 0 {
            pow2(63)
        } else {
            0
        };
        (sign + (1023 + exponent) * pow2(52) + (significand - pow2(52))) as u64
    }
}

/// A positive number lies between the power of two of its exponent and the
/// next one.
pub proof fn lemma_exponent_bounds(m: nat)
    requires
        m >= 1,
    ensures
        pow2(exponent_of(m)) <= m < pow2(exponent_of(m) + 1),
    decreases m,
{
    lemma2_to64();
    if m >= 2 {
        let e = exponent_of(m / 2);
        lemma_exponent_bounds(m / 2);
        lemma_pow2_unfold(e + 1);
        lemma_pow2_unfold(e + 2);
    }
}

/// The exponent of a number below `2^64` is below 64.
proof fn lemma_exponent_small(m: nat)
    requires
        1 <= m < 0x1_0000_0000_0000_0000,
    ensures
        exponent_of(m) <= 63,
{
    lemma_exponent_bounds(m);
    lemma2_to64();
    if exponent_of(m) >= 64 {
        if exponent_of(m) > 64 {
            lemma_pow2_strictly_increases(64, exponent_of(m));
        }
    }
}

/// `2^n` for `n` below 64.
fn power_of_two(n: u64) -> (p: u64)
    requires
        n <= 63,
    ensures
        p == pow2(n as nat),
{
    proof {
        lemma2_to64();
    }
    let mut p: u64 = 1;
    let mut k: u64 = 0;
    while k < n
        invariant
            k <= n <= 63,
            p == pow2(k as nat),
        decreases n - k,
    {
        proof {
            lemma_pow2_unfold((k + 1) as nat);
            lemma2_to64();
            lemma2_to64_rest();
            if k + 1 < 63 {
                lemma_pow2_strictly_increases((k + 1) as nat, 63);
            }
        }
        p = p * 2;
        k = k + 1;
    }
    p
}

/// The exponent of a positive number.
fn exponent(m: u64) -> (e: u64)
    requires
        m >= 1,
    ensures
        e == exponent_of(m as nat),
        e <= 63,
{
    proof {
        lemma_exponent_small(m as nat);
    }
    let mut e: u64 = 0;
    let mut top: u64 = m;
    while top >= 2
        invariant
            top >= 1,
            exponent_of(m as nat) == e + exponent_of(top as nat),
            exponent_of(m as nat) <= 63,
        decreases top,
    {
        top = top / 2;
        e = e + 1;
    }
    e
}

/// The significand of the nearest number is a 53-bit number with its top bit
/// set, and its exponent is at most one above that of the integer.
pub proof fn lemma_nearest_bounds(m: nat)
    requires
        m >= 1,
    ensures
        pow2(52) <= nearest(m).0 < pow2(53),
        exponent_of(m) <= nearest(m).1 <= exponent_of(m) + 1,
{
    let e = exponent_of(m);
    lemma_exponent_bounds(m);
    lemma2_to64();
    lemma2_to64_rest();
    if e <= 52 {
        let p = pow2((52 - e) as nat);
        lemma_pow2_pos((52 - e) as nat);
        lemma_pow2_adds(e, (52 - e) as nat);
        lemma_pow2_adds(e + 1, (52 - e) as nat);
        assert(pow2(e) * p <= m * p) by (nonlinear_arith)
            requires
                pow2(e) <= m,
                p > 0,
        ;
        assert(m * p < pow2(e + 1) * p) by (nonlinear_arith)
            requires
                m < pow2(e + 1),
                p > 0,
        ;
    } else {
        let s = (e - 52) as nat;
        let p = pow2(s);
        lemma_pow2_pos(s);
        lemma_pow2_adds(52, s);
        lemma_pow2_adds(53, s);
        let q = m / p;
        assert(pow2(52) <= q < pow2(53)) by (nonlinear_arith)
            requires
                pow2(52) * p <= m < pow2(53) * p,
                p > 0,
                q == m / p,
        ;
    }
}

/// Widens an integer to the nearest 64-bit IEEE-754 number, as `as` does, and
/// hands back the number's bits.
pub fn int_to_float_bits(i: i64) -> (r: u64)
    ensures
        r == widened_bits(i),
{
    if i == 0 {
        return 0;
    }
    let m: u64 = if i < 0 {
        ((-(i + 1)) as u64) + 1
    } else {
        i as u64
    };
    assert(m == magnitude(i));
    let e: u64 = exponent(m);
    proof {
        lemma2_to64();
        lemma2_to64_rest();
        lemma_exponent_bounds(m as nat);
        lemma_nearest_bounds(m as nat);
    }
    let mut significand: u64;
    let mut result_exponent: u64 = e;
    if e <= 52 {
        let p: u64 = power_of_two(52 - e);
        assert(m * p == nearest(m as nat).0);
        significand = m * p;
    } else {
        let p: u64 = power_of_two(e - 52);
        proof {
            lemma_pow2_unfold((e - 52) as nat);
            lemma_pow2_pos((e - 52) as nat);
        }
        let q: u64 = m / p;
        let r: u64 = m % p;
        let half: u64 = p / 2;
        assert(p == 2 * half);
        let up = r > half || (r == half && q % 2 == 1);
        assert(up == (2 * r > p || (2 * r == p && q % 2 == 1)));
        proof {
            lemma_pow2_adds(53, (e - 52) as nat);
        }
        assert(q < 0x20_0000_0000_0000) by (nonlinear_arith)
            requires
                m < 0x20_0000_0000_0000 * p,
                p > 0,
                q == m / p,
        ;
        let rounded: u64 = if up {
            q + 1
        } else {
            q
        };
        assert(rounded == round_shift(m as nat, (e - 52) as nat));
        if rounded == 0x20_0000_0000_0000 {
            significand = 0x10_0000_0000_0000;
            result_exponent = e + 1;
        } else {
            significand = rounded;
        }
    }
    assert(significand == nearest(m as nat).0);
    assert(result_exponent == nearest(m as nat).1);
    let sign: u64 = if i < 0 {
        0x8000_0000_0000_0000
    } else {
        0
    };
    sign + (1023 + result_exponent) * 0x10_0000_0000_0000 + (significand - 0x10_0000_0000_0000)
}

/// An integer of at most 53 bits is widened without loss: the nearest number
/// is the integer itself.
pub proof fn law_small_integers_are_exact(m: nat)
    requires
        1 <= m < pow2(53),
    ensures
        nearest(m).0 * pow2(nearest(m).1) == m * pow2(52),
{
    let e = exponent_of(m);
    lemma_exponent_bounds(m);
    if e > 52 {
        if e > 53 {
            lemma_pow2_strictly_increases(53, e);
        }
    } else {
        lemma_pow2_adds((52 - e) as nat, e);
        assert(m * pow2((52 - e) as nat) * pow2(e) == m * (pow2((52 - e) as nat) * pow2(e))) by (nonlinear_arith);
    }
}

/// Widening is off by at most half a unit in the last place: with `s` bits
/// dropped, twice the distance between the integer and the nearest number is
/// at most `2^s`.
pub proof fn law_rounding_is_nearest(m: nat, s: nat)
    ensures
        -(pow2(s) as int) <= 2 * (round_shift(m, s) * pow2(s) - m) <= pow2(s),
{
    let p = pow2(s);
    lemma_pow2_pos(s);
    let q = m / p;
    let r = m % p;
    assert(m == q * p + r && 0 <= r < p) by (nonlinear_arith)
        requires
            p > 0,
            q == m / p,
            r == m % p,
    ;
    assert((q + 1) * p == q * p + p) by (nonlinear_arith);
}

/// The text that Rust's `Display` gives for the number with these bits.
pub uninterp spec fn float_text(bits: u64) -> Seq<char>;

/// Calls Arrow's `Buffer::from_vec` and `Float64Array::new` on the one bit
/// pattern, takes the array's `value(0)`, and formats that number with
/// `to_string`.
#[verifier::external_body]
pub(crate) fn float_to_text(bits: u64) -> (r: String)
    ensures
        r@ == float_text(bits),
{
    let buffer = arrow::buffer::Buffer::from_vec(vec![bits]);
    arrow::array::Float64Array::new(buffer.into(), None).value(0).to_string()
}

/// Whether the bits stand for a finite number: neither NaN nor an infinity,
/// which are the patterns whose eleven exponent bits are all set.
pub open spec fn is_finite_bits(bits: u64) -> bool {
    (bits >> 52) & 0x7ff != 0x7ff
}

/// Whether the number with these bits is finite.
pub fn float_is_finite(bits: u64) -> (r: bool)
    ensures
        r == is_finite_bits(bits),
{
    (bits >> 52) & 0x7ff != 0x7ff
}

/// The integer that a step is stored as: its two's-complement reading.
pub open spec fn spec_step_to_i64(step: u64) -> i64 {
    if step <= i64::MAX as u64 {
        step as i64
    } else {
        (step - 0x1_0000_0000_0000_0000) as i64
    }
}

/// Reads an unsigned step as a signed 64-bit integer, wrapping.
pub fn step_to_i64(step: u64) -> (r: i64)
    ensures
        r == spec_step_to_i64(step),
{
    if step <= 0x7fff_ffff_ffff_ffff {
        step as i64
    } else {
        let low: u64 = step - 0x8000_0000_0000_0000;
        (low as i64) + i64::MIN
    }
}

/// The step that an integer is stored for: its reading as an unsigned
/// number.
pub open spec fn spec_i64_to_step(stored: i64) -> u64 {
    if stored >= 0 {
        stored as u64
    } else {
        (stored + 0x1_0000_0000_0000_0000) as u64
    }
}

/// Reads a stored integer back as the step that was logged.
pub fn i64_to_step(stored: i64) -> (r: u64)
    ensures
        r == spec_i64_to_step(stored),
{
    if stored >= 0 {
        stored as u64
    } else {
        let low: i64 = stored - i64::MIN;
        (low as u64) + 0x8000_0000_0000_0000
    }
}

/// A step is stored and read back without loss, and so is every integer that
/// stands for a step.
pub proof fn lemma_step_round_trip(step: u64, stored: i64)
    ensures
        spec_i64_to_step(spec_step_to_i64(step)) == step,
        spec_step_to_i64(spec_i64_to_step(stored)) == stored,
{
}

/// The decimal digit `d` as a character.
pub open spec fn digit_char(d: nat) -> char {
    if d == 0 {
        '0'
    } else if d == 1 {
        '1'
    } else if d == 2 {
        '2'
    } else if d == 3 {
        '3'
    } else if d == 4 {
        '4'
    } else if d == 5 {
        '5'
    } else if d == 6 {
        '6'
    } else if d == 7 {
        '7'
    } else if d == 8 {
        '8'
    } else {
        '9'
    }
}

/// Decimal digits of a natural number, most significant first, no leading zero.
pub open spec fn nat_text(n: nat) -> Seq<char>
    decreases n,
{
    if n < 10 {
        seq![digit_char(n)]
    } else {
        nat_text(n / 10).push(digit_char(n % 10))
    }
}

/// Decimal text of an integer, with `-` before a negative one.
pub open spec fn int_text(i: int) -> Seq<char> {
    if i < 0 {
        seq!['-'] + nat_text((-i) as nat)
    } else {
        nat_text(i as nat)
    }
}

/// The decimal digit `d` as text.
fn digit_str(d: u64) -> (r: &'static str)
    requires
        d < 10,
    ensures
        r@ == seq![digit_char(d as nat)],
{
    proof {
        reveal_strlit("0");
        reveal_strlit("1");
        reveal_strlit("2");
        reveal_strlit("3");
        reveal_strlit("4");
        reveal_strlit("5");
        reveal_strlit("6");
        reveal_strlit("7");
        reveal_strlit("8");
        reveal_strlit("9");
    }
    let r = if d == 0 {
        "0"
    } else if d == 1 {
        "1"
    } else if d == 2 {
        "2"
    } else if d == 3 {
        "3"
    } else if d == 4 {
        "4"
    } else if d == 5 {
        "5"
    } else if d == 6 {
        "6"
    } else if d == 7 {
        "7"
    } else if d == 8 {
        "8"
    } else {
        "9"
    };
    assert(r@ =~= seq![digit_char(d as nat)]);
    r
}

/// Appends the decimal digits of `n` to `out`.
fn push_nat_text(out: &mut String, n: u64)
    ensures
        final(out)@ == old(out)@ + nat_text(n as nat),
    decreases n,
{
    if n < 10 {
        out.append(digit_str(n));
    } else {
        push_nat_text(out, n / 10);
        out.append(digit_str(n % 10));
        assert(old(out)@ + nat_text(n as nat) =~= old(out)@ + nat_text((n / 10) as nat) + seq![
            digit_char((n % 10) as nat),
        ]);
    }
}

/// Decimal text of an integer.
pub fn int_to_text(i: i64) -> (r: String)
    ensures
        r@ == int_text(i as int),
{
    let mut out = String::new();
    if i < 0 {
        proof {
            reveal_strlit("-");
        }
        out.append("-");
        let magnitude: u64 = ((-(i + 1)) as u64) + 1;
        push_nat_text(&mut out, magnitude);
        assert(out@ =~= seq!['-'] + nat_text((-i) as nat));
    } else {
        push_nat_text(&mut out, i as u64);
        assert(out@ =~= nat_text(i as nat));
    }
    out
}

/// Whole seconds of a duration given in milliseconds; none for a negative one.
pub open spec fn whole_seconds(duration_ms: i64) -> nat {
    if duration_ms <= 0 {
        0
    } else {
        (duration_ms / 1000) as nat
    }
}

/// A duration as a person reads it: hours and minutes from an hour on, minutes
/// and seconds from a minute on, else seconds.
pub open spec fn duration_text(duration_ms: i64) -> Seq<char> {
    let secs = whole_seconds(duration_ms);
    let h = secs / 3600;
    let m = (secs % 3600) / 60;
    let s = secs % 60;
    if h > 0 {
        nat_text(h) + seq!['h', ' '] + nat_text(m) + seq!['m']
    } else if m > 0 {
        nat_text(m) + seq!['m', ' '] + nat_text(s) + seq!['s']
    } else {
        nat_text(s) + seq!['s']
    }
}

/// Writes a duration given in milliseconds as a person reads it.
pub fn format_duration(duration_ms: i64) -> (r: String)
    ensures
        r@ == duration_text(duration_ms),
{
    proof {
        reveal_strlit("h ");
        reveal_strlit("m ");
        reveal_strlit("m");
        reveal_strlit("s");
    }
    let secs: u64 = if duration_ms <= 0 {
        0
    } else {
        (duration_ms / 1000) as u64
    };
    let h: u64 = secs / 3600;
    let m: u64 = (secs % 3600) / 60;
    let s: u64 = secs % 60;
    let mut out = String::new();
    if h > 0 {
        push_nat_text(&mut out, h);
        out.append("h ");
        push_nat_text(&mut out, m);
        out.append("m");
        assert(out@ =~= duration_text(duration_ms));
    } else if m > 0 {
        push_nat_text(&mut out, m);
        out.append("m ");
        push_nat_text(&mut out, s);
        out.append("s");
        assert(out@ =~= duration_text(duration_ms));
    } else {
        push_nat_text(&mut out, s);
        out.append("s");
        assert(out@ =~= duration_text(duration_ms));
    }
    out
}

} // verus!
