//! Human-readable sizes in binary units.

use vstd::prelude::*;
use crate::text::{decimal, decimal_string, push_char, push_decimal};

verus! {

/// One kibibyte.
pub const KIB: u64 = 1024;
/// One mebibyte.
pub const MIB: u64 = 1048576;
/// One gibibyte.
pub const GIB: u64 = 1073741824;
/// One tebibyte.
pub const TIB: u64 = 1099511627776;

/// Integers below this are held exactly by a 64-bit float (2^53).
pub const FLOAT_EXACT: u64 = 9007199254740992;

/// The power of two to which a 64-bit float rounds an integer `b`: 1 while
/// `b` has at most 53 significant bits, doubling for each bit beyond.
pub open spec fn float_grain(b: nat) -> nat
    decreases b,
{
    if b < FLOAT_EXACT {
        1
    } else {
        2 * float_grain(b / 2)
    }
}

/// `x` divided by `d` and rounded to the nearest integer, ties to even.
pub open spec fn div_round_even(x: nat, d: nat) -> nat
    recommends
        d > 0,
{
    let q = x / d;
    let r = x % d;
    if 2 * r > d || (2 * r == d && q % 2 == 1) {
        q + 1
    } else {
        q
    }
}

/// The integer value of `b` converted to a 64-bit float (round to nearest,
/// ties to even).
pub open spec fn as_float(b: nat) -> nat {
    div_round_even(b, float_grain(b)) * float_grain(b)
}

/// The tenths of `v / unit`, rounded to nearest with ties to even: what a
/// one-decimal rendering of that quotient shows, without the point.
pub open spec fn tenths(v: nat, unit: nat) -> nat {
    div_round_even(v * 10, unit)
}

/// `t` tenths written with one decimal: `"12.3"` for 123.
pub open spec fn one_decimal(t: nat) -> Seq<char> {
    decimal(t / 10) + seq!['.'] + decimal(t % 10)
}

/// The size `bytes` written with one decimal in `unit`.
pub open spec fn scaled(bytes: nat, unit: nat) -> Seq<char> {
    one_decimal(tenths(as_float(bytes), unit))
}

/// The unit that shows `bytes`: 0 bytes, 1 KiB, 2 MiB, 3 GiB, 4 TiB.
pub open spec fn unit_rank(bytes: nat) -> nat {
    if bytes >= TIB { 4 } else if bytes >= GIB { 3 } else if bytes >= MIB { 2 } else if bytes >= KIB { 1 } else { 0 }
}

/// The number shown for `bytes` in its unit: whole bytes, kibibytes and
/// mebibytes (rounded down), or tenths of gibibytes and tebibytes.
pub open spec fn size_amount(bytes: nat) -> nat {
    if bytes >= TIB {
        tenths(as_float(bytes), TIB as nat)
    } else if bytes >= GIB {
        tenths(as_float(bytes), GIB as nat)
    } else if bytes >= MIB {
        bytes / (MIB as nat)
    } else if bytes >= KIB {
        bytes / (KIB as nat)
    } else {
        bytes
    }
}

/// The name of a unit.
pub open spec fn unit_name(rank: nat) -> Seq<char> {
    if rank == 4 { seq!['T', 'i', 'B'] }
    else if rank == 3 { seq!['G', 'i', 'B'] }
    else if rank == 2 { seq!['M', 'i', 'B'] }
    else if rank == 1 { seq!['K', 'i', 'B'] }
    else { seq!['B'] }
}

/// The number and unit that show `bytes`: whole bytes, kibibytes and
/// mebibytes are written as integers, larger sizes with one decimal in
/// GiB or TiB.
pub open spec fn size_parts(bytes: nat) -> (Seq<char>, Seq<char>) {
    let r = unit_rank(bytes);
    let n = size_amount(bytes);
    (if r >= 3 { one_decimal(n) } else { decimal(n) }, unit_name(r))
}

fn float_grain_exec(b: u64) -> (g: u64)
    ensures
        g == float_grain(b as nat),
        g <= 4096,
        b < FLOAT_EXACT ==> g == 1,
        g >= 1,
    decreases b,
{
    if b < FLOAT_EXACT {
        1
    } else {
        let h = float_grain_exec(b / 2);
        assert(h <= 2048) by {
            if b / 2 >= FLOAT_EXACT {
                lemma_grain_bound(b as nat);
            }
        }
        2 * h
    }
}

proof fn lemma_grain_bound(b: nat)
    requires
        b < 0x1_0000_0000_0000_0000,
        b / 2 >= FLOAT_EXACT,
    ensures
        float_grain(b / 2) <= 2048,
{
    lemma_grain_le(b / 2);
    assert((b / 2) / (FLOAT_EXACT as nat / 2) <= 2048);
}

/// The grain never exceeds a 2^52-th of the value (for values past 2^53).
proof fn lemma_grain_le(b: nat)
    requires
        b >= FLOAT_EXACT,
    ensures
        float_grain(b) <= b / (FLOAT_EXACT as nat / 2),
    decreases b,
{
    let h = FLOAT_EXACT as nat / 2;
    assert(float_grain(b) == 2 * float_grain(b / 2));
    if b / 2 >= FLOAT_EXACT {
        lemma_grain_le(b / 2);
        assert((b / 2) / h * 2 <= b / h) by (nonlinear_arith)
            requires h > 0;
    } else {
        assert(float_grain(b / 2) == 1);
        assert(b / h >= 2) by (nonlinear_arith)
            requires b >= 2 * h, h > 0;
    }
}

/// Rounding a quotient never lands past `(x + d) / d`.
proof fn lemma_round_even_bound(x: nat, d: nat)
    requires
        d > 0,
    ensures
        div_round_even(x, d) * d <= x + d,
        div_round_even(x, d) <= (x + d) / d,
{
    let q = x / d;
    assert(q * d <= x) by (nonlinear_arith)
        requires q == x / d, d > 0;
    assert((q + 1) * d <= x + d) by (nonlinear_arith)
        requires q * d <= x;
    assert(q + 1 == (x + d) / d) by (nonlinear_arith)
        requires q == x / d, d > 0;
}

fn div_round_even_exec(x: u128, d: u128) -> (r: u128)
    requires
        d > 0,
        d <= 0x1_0000_0000_0000_0000,
        x < 0x1_0000_0000_0000_0000_0000,
    ensures
        r == div_round_even(x as nat, d as nat),
{
    let q = x / d;
    let r = x % d;
    assert(q <= x) by (nonlinear_arith)
        requires q == x / d, d > 0;
    if 2 * r > d || (2 * r == d && q % 2 == 1) {
        q + 1
    } else {
        q
    }
}

fn push_one_decimal(s: &mut String, t: u128)
    requires
        t < 0x1_0000_0000_0000_0000,
    ensures
        final(s)@ == old(s)@ + one_decimal(t as nat),
{
    push_decimal(s, (t / 10) as u64);
    push_char(s, '.');
    push_decimal(s, (t % 10) as u64);
    assert(s@ =~= old(s)@ + one_decimal(t as nat));
}

fn scaled_exec(bytes: u64, unit: u64) -> (r: String)
    requires
        unit >= KIB,
    ensures
        r@ == scaled(bytes as nat, unit as nat),
{
    let g = float_grain_exec(bytes) as u128;
    proof { lemma_round_even_bound(bytes as nat, g as nat); }
    let v = div_round_even_exec(bytes as u128, g) * g;
    proof { lemma_round_even_bound(v as nat * 10, unit as nat); }
    let t = div_round_even_exec(v * 10, unit as u128);
    assert(t <= (v * 10 + unit) / unit as int);
    assert((v * 10 + unit) / (unit as int) <= (v * 10 + unit) / 1024) by (nonlinear_arith)
        requires unit >= 1024, v >= 0;
    let mut s = String::new();
    push_one_decimal(&mut s, t);
    assert(s@ =~= scaled(bytes as nat, unit as nat));
    s
}

/// Splits `bytes` into the number and the unit that show it.
pub fn format_size(bytes: u64) -> (r: (String, String))
    ensures
        r.0@ == size_parts(bytes as nat).0,
        r.1@ == size_parts(bytes as nat).1,
{
    proof {
        reveal_strlit("TiB");
        reveal_strlit("GiB");
        reveal_strlit("MiB");
        reveal_strlit("KiB");
        reveal_strlit("B");
    }
    if bytes >= TIB {
        (scaled_exec(bytes, TIB), String::from_str("TiB"))
    } else if bytes >= GIB {
        (scaled_exec(bytes, GIB), String::from_str("GiB"))
    } else if bytes >= MIB {
        (decimal_string(bytes / MIB), String::from_str("MiB"))
    } else if bytes >= KIB {
        (decimal_string(bytes / KIB), String::from_str("KiB"))
    } else {
        (decimal_string(bytes), String::from_str("B"))
    }
}

/// Rounding a quotient to the nearest integer never decreases as the
/// dividend grows.
proof fn lemma_round_even_monotone(x: nat, y: nat, d: nat)
    requires
        x <= y,
        d > 0,
    ensures
        div_round_even(x, d) <= div_round_even(y, d),
{
    let qx = x / d;
    let qy = y / d;
    let rx = x % d;
    let ry = y % d;
    assert(qx <= qy) by (nonlinear_arith)
        requires x <= y, d > 0, qx == x / d, qy == y / d;
    assert(x == qx * d + rx && y == qy * d + ry && rx < d && ry < d) by (nonlinear_arith)
        requires d > 0, qx == x / d, qy == y / d, rx == x % d, ry == y % d;
    if qx == qy {
        assert(rx <= ry) by (nonlinear_arith)
            requires x == qx * d + rx, y == qy * d + ry, qx == qy, x <= y;
    }
}

/// The grain changes only where an integer reaches 2^53 times the old grain,
/// and then it doubles.
proof fn lemma_grain_step(x: nat)
    ensures
        float_grain(x + 1) == float_grain(x)
            || (float_grain(x + 1) == 2 * float_grain(x) && x + 1 == FLOAT_EXACT * float_grain(x)),
    decreases x,
{
    if x + 1 < FLOAT_EXACT {
    } else if x + 1 == FLOAT_EXACT {
        assert(float_grain(x + 1) == 2 * float_grain((x + 1) / 2));
        assert(float_grain((x + 1) / 2) == 1);
    } else {
        let y = x / 2;
        assert(float_grain(x) == 2 * float_grain(y));
        assert(float_grain(x + 1) == 2 * float_grain((x + 1) / 2));
        if (x + 1) / 2 != y {
            assert((x + 1) / 2 == y + 1);
            lemma_grain_step(y);
        }
    }
}

/// Rounding to a multiple of `g` stays at or below a multiple of `g` that is
/// at least the value.
proof fn lemma_round_below_multiple(x: nat, g: nat, c: nat)
    requires
        g > 0,
        x <= c * g,
    ensures
        div_round_even(x, g) * g <= c * g,
{
    let q = x / g;
    assert(q * g <= x) by (nonlinear_arith)
        requires q == x / g, g > 0;
    if q >= c {
        assert(q * g >= c * g) by (nonlinear_arith)
            requires q >= c, g > 0;
        assert(x == c * g);
        assert(q == c) by (nonlinear_arith)
            requires q == x / g, x == c * g, g > 0;
        assert(x % g == 0) by (nonlinear_arith)
            requires x == c * g, g > 0;
    } else {
        assert((q + 1) * g <= c * g) by (nonlinear_arith)
            requires q + 1 <= c, g > 0;
    }
}

/// A 64-bit float never converts a larger integer to a smaller value.
proof fn lemma_as_float_monotone(a: nat, b: nat)
    requires
        a <= b,
    ensures
        as_float(a) <= as_float(b),
    decreases b - a,
{
    if a < b {
        lemma_as_float_monotone(a, (b - 1) as nat);
        let x = (b - 1) as nat;
        lemma_grain_step(x);
        let g = float_grain(x);
        assert(g >= 1) by { lemma_grain_positive(x); }
        if float_grain(b) == g {
            lemma_round_even_monotone(x, b, g);
            assert(div_round_even(x, g) * g <= div_round_even(b, g) * g) by (nonlinear_arith)
                requires div_round_even(x, g) <= div_round_even(b, g), g >= 1;
        } else {
            lemma_round_below_multiple(x, g, FLOAT_EXACT as nat);
            let g2 = 2 * g;
            assert(b == (FLOAT_EXACT as nat / 2) * g2);
            assert(b % g2 == 0 && b / g2 == FLOAT_EXACT as nat / 2) by (nonlinear_arith)
                requires b == (FLOAT_EXACT as nat / 2) * g2, g2 >= 2;
            assert(div_round_even(b, g2) == FLOAT_EXACT as nat / 2);
        }
    }
}

proof fn lemma_grain_positive(x: nat)
    ensures
        float_grain(x) >= 1,
    decreases x,
{
    if x >= FLOAT_EXACT {
        lemma_grain_positive(x / 2);
    }
}

/// A larger size never gets a smaller unit, nor a smaller number in the
/// same unit.
pub proof fn law_size_monotone(a: nat, b: nat)
    requires
        a <= b,
    ensures
        unit_rank(a) <= unit_rank(b),
        unit_rank(a) == unit_rank(b) ==> size_amount(a) <= size_amount(b),
{
    if unit_rank(a) == unit_rank(b) {
        if unit_rank(a) >= 3 {
            lemma_as_float_monotone(a, b);
            let unit: nat = if unit_rank(a) == 4 { TIB as nat } else { GIB as nat };
            lemma_round_even_monotone(as_float(a) * 10, as_float(b) * 10, unit);
        } else if unit_rank(a) == 2 {
            assert(a / (MIB as nat) <= b / (MIB as nat)) by (nonlinear_arith)
                requires a <= b;
        } else if unit_rank(a) == 1 {
            assert(a / (KIB as nat) <= b / (KIB as nat)) by (nonlinear_arith)
                requires a <= b;
        }
    }
}

} // verus!
