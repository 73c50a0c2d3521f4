//! Numbers for people: byte counts, percentages.

use crate::text::{concat, decimal, decimal_spec, push_text};
use vstd::arithmetic::power2::pow2;
use vstd::prelude::*;

verus! {

/// The integer nearest to a quotient; of two equally near, the even one.
pub open spec fn nearest(a: nat, b: nat) -> nat
    recommends
        b > 0,
{
    let q = a / b;
    let r = a % b;
    if 2 * r < b || (2 * r == b && q % 2 == 0) {
        q
    } else {
        q + 1
    }
}

/// The distance between neighbours in double precision, for numbers that need more than 53 bits.
pub open spec fn double_step(n: nat) -> nat {
    if n < 0x20_0000_0000_0000 {
        1
    } else if n < 0x40_0000_0000_0000 {
        2
    } else if n < 0x80_0000_0000_0000 {
        4
    } else if n < 0x100_0000_0000_0000 {
        8
    } else if n < 0x200_0000_0000_0000 {
        16
    } else if n < 0x400_0000_0000_0000 {
        32
    } else if n < 0x800_0000_0000_0000 {
        64
    } else if n < 0x1000_0000_0000_0000 {
        128
    } else if n < 0x2000_0000_0000_0000 {
        256
    } else if n < 0x4000_0000_0000_0000 {
        512
    } else if n < 0x8000_0000_0000_0000 {
        1024
    } else {
        2048
    }
}

/// A number in double precision.
pub open spec fn as_double(n: nat) -> nat {
    double_step(n) * nearest(n, double_step(n))
}

/// The unit in which a number of bytes is shown: its size and its name.
pub open spec fn unit_of(v: nat) -> (nat, Seq<char>) {
    if v < 1024 {
        (1, "B"@)
    } else if v < 0x10_0000 {
        (1024, "KiB"@)
    } else if v < 0x4000_0000 {
        (0x10_0000, "MiB"@)
    } else if v < 0x100_0000_0000 {
        (0x4000_0000, "GiB"@)
    } else {
        (0x100_0000_0000, "TiB"@)
    }
}

/// A number of bytes as a person reads it: whole bytes, or one decimal of the largest unit that
/// fits.
pub open spec fn human_spec(n: nat) -> Seq<char> {
    let v = as_double(n);
    let unit = unit_of(v);
    if unit.0 == 1 {
        decimal_spec(n) + " B"@
    } else {
        let tenths = nearest(10 * v, unit.0);
        decimal_spec(tenths / 10) + "."@ + decimal_spec(tenths % 10) + " "@ + unit.1
    }
}

fn nearest_quotient(a: u128, b: u128) -> (r: u128)
    requires
        0 < b <= 0x100_0000_0000,
        a <= 0x1_0000_0000_0000_0000_0000,
    ensures
        r == nearest(a as nat, b as nat),
{
    let q: u128 = a / b;
    let m: u128 = a % b;
    assert(q <= a) by (nonlinear_arith)
        requires
            b > 0,
            q == a / b,
    ;
    if 2 * m < b || (2 * m == b && q % 2 == 0) {
        q
    } else {
        q + 1
    }
}

fn step(n: u64) -> (r: u64)
    ensures
        r == double_step(n as nat),
        1 <= r <= 2048,
{
    if n < 0x20_0000_0000_0000 {
        1
    } else if n < 0x40_0000_0000_0000 {
        2
    } else if n < 0x80_0000_0000_0000 {
        4
    } else if n < 0x100_0000_0000_0000 {
        8
    } else if n < 0x200_0000_0000_0000 {
        16
    } else if n < 0x400_0000_0000_0000 {
        32
    } else if n < 0x800_0000_0000_0000 {
        64
    } else if n < 0x1000_0000_0000_0000 {
        128
    } else if n < 0x2000_0000_0000_0000 {
        256
    } else if n < 0x4000_0000_0000_0000 {
        512
    } else if n < 0x8000_0000_0000_0000 {
        1024
    } else {
        2048
    }
}

proof fn lemma_nearest(a: nat, b: nat)
    requires
        b > 0,
    ensures
        b * nearest(a, b) <= a + b,
{
    vstd::arithmetic::div_mod::lemma_fundamental_div_mod(a as int, b as int);
    let q = a / b;
    assert(b * (q + 1) == b * q + b) by (nonlinear_arith);
}

/// A number of bytes as a person reads it.
pub fn human_bytes(n: u64) -> (r: String)
    ensures
        r@ == human_spec(n as nat),
{
    let s: u64 = step(n);
    proof {
        lemma_nearest(n as nat, s as nat);
    }
    let q: u128 = nearest_quotient(n as u128, s as u128);
    let ghost d = as_double(n as nat);
    assert(d == s * q);
    assert(q <= n + 1) by (nonlinear_arith)
        requires
            s * q <= n + s,
            s >= 1,
            q >= 0,
            n >= 0,
    ;
    assert(s * q == (s as u128) * q);
    let v: u128 = (s as u128) * q;
    if v < 1024 {
        return concat(&decimal(n), " B");
    }
    let scale: u128 = if v < 0x10_0000 {
        1024
    } else if v < 0x4000_0000 {
        0x10_0000
    } else if v < 0x100_0000_0000 {
        0x4000_0000
    } else {
        0x100_0000_0000
    };
    let name: &str = if v < 0x10_0000 {
        "KiB"
    } else if v < 0x4000_0000 {
        "MiB"
    } else if v < 0x100_0000_0000 {
        "GiB"
    } else {
        "TiB"
    };
    let tenths: u128 = nearest_quotient(10 * v, scale);
    proof {
        lemma_nearest((10 * v) as nat, scale as nat);
        assert(tenths <= 10 * v + 1) by (nonlinear_arith)
            requires
                scale * tenths <= 10 * v + scale,
                scale >= 1,
                v >= 0,
        ;
        assert(tenths <= 0xffff_ffff_ffff) by (nonlinear_arith)
            requires
                scale * tenths <= 10 * v + scale,
                scale >= 1024,
                v >= 1024,
                v <= 0x1_0000_0000_0000_0800,
                v >= 0x100_0000_0000 ==> scale == 0x100_0000_0000,
        ;
    }
    let t: u64 = tenths as u64;
    let mut out: String = decimal(t / 10);
    push_text(&mut out, ".");
    push_text(&mut out, &decimal(t % 10));
    push_text(&mut out, " ");
    push_text(&mut out, name);
    out
}

/// How far a transfer has come, in percent: the whole where there is nothing to send or where the
/// numbers are too large to tell.
pub open spec fn percent_spec(transferred: u64, total: u64) -> u64 {
    if total == 0 || 100 * transferred > u64::MAX {
        100
    } else {
        ((100 * transferred) / (total as int)) as u64
    }
}

/// How far a transfer has come, in percent.
pub fn percent(transferred: u64, total: u64) -> (r: u64)
    ensures
        r == percent_spec(transferred, total),
{
    match transferred.checked_mul(100) {
        Some(n) => {
            if total == 0 {
                100
            } else {
                n / total
            }
        },
        None => 100,
    }
}

// ── Laws ─────────────────────────────────────────────────────────────────────

/// The nearest integer is no further than a half from the quotient, and even where it is exactly
/// that far.
pub proof fn law_nearest_is_within_a_half(a: nat, b: nat)
    requires
        b > 0,
    ensures
        2 * nearest(a, b) * b <= 2 * a + b,
        2 * a <= 2 * nearest(a, b) * b + b,
        2 * nearest(a, b) * b == 2 * a + b || 2 * a == 2 * nearest(a, b) * b + b ==> nearest(a, b)
            % 2 == 0,
{
    let q = a / b;
    let r = a % b;
    let n = nearest(a, b);
    assert(a == q * b + r && r < b) by (nonlinear_arith)
        requires
            q == a / b,
            r == a % b,
            b > 0,
    ;
    let p = (q * b) as int;
    assert(2 * q * b == 2 * p) by (nonlinear_arith)
        requires
            p == q * b,
    ;
    assert(2 * (q + 1) * b == 2 * p + 2 * b) by (nonlinear_arith)
        requires
            p == q * b,
    ;
}

/// A number in double precision is the nearest multiple of the step there, which is one up to
/// 2^53 and a power of two that leaves 53 bits above it.
pub proof fn law_double_precision(n: nat)
    requires
        n <= u64::MAX,
    ensures
        n < 0x20_0000_0000_0000 ==> as_double(n) == n,
        n < 0x20_0000_0000_0000 * double_step(n),
        n >= 0x20_0000_0000_0000 ==> n >= 0x10_0000_0000_0000 * double_step(n),
        exists|k: nat| double_step(n) == #[trigger] pow2(k),
        as_double(n) == double_step(n) * nearest(n, double_step(n)),
        2 * as_double(n) <= 2 * n + double_step(n),
        2 * n <= 2 * as_double(n) + double_step(n),
{
    let s = double_step(n);
    law_nearest_is_within_a_half(n, s);
    let m = nearest(n, s);
    assert(2 * m * s == 2 * (s * m)) by (nonlinear_arith);
    vstd::arithmetic::power2::lemma2_to64();
    assert(s == pow2(0) || s == pow2(1) || s == pow2(2) || s == pow2(3) || s == pow2(4) || s == pow2(
        5,
    ) || s == pow2(6) || s == pow2(7) || s == pow2(8) || s == pow2(9) || s == pow2(10) || s == pow2(
        11,
    ));
    if n < 0x20_0000_0000_0000 {
        assert(n / 1 == n && n % 1 == 0);
        assert(1 * n == n);
    }
}

/// Bytes up to a kibibyte are counted; above, the largest unit that fits is shown to one decimal,
/// rounded to the nearest; the number itself is taken in double precision.
pub proof fn law_sizes_are_shown_in_the_largest_unit(n: nat)
    requires
        n <= u64::MAX,
    ensures
        n < 1024 ==> human_spec(n) == decimal_spec(n) + " B"@,
        1024 <= n < 1024 * 1024 ==> shows_tenths(n, 1024, "KiB"@),
        1024 * 1024 <= n < 1024 * 1024 * 1024 ==> shows_tenths(n, 1024 * 1024, "MiB"@),
        1024 * 1024 * 1024 <= n < 1024 * 1024 * 1024 * 1024 ==> shows_tenths(
            n,
            1024 * 1024 * 1024,
            "GiB"@,
        ),
        n >= 1024 * 1024 * 1024 * 1024 ==> shows_tenths(n, 1024 * 1024 * 1024 * 1024, "TiB"@),
{
    law_double_precision(n);
    let v = as_double(n);
    let u = unit_of(v).0;
    law_nearest_is_within_a_half(10 * v, u);
    let q = nearest(10 * v, u);
    assert(2 * q * u == 2 * (q * u)) by (nonlinear_arith);
    if n >= 1024 {
        assert(10 * (q / 10) + q % 10 == q);
        assert(human_spec(n) == tenths_text(q / 10, q % 10, unit_of(v).1));
    }
}

/// A whole number, a decimal and a unit.
pub open spec fn tenths_text(whole: nat, tenth: nat, unit: Seq<char>) -> Seq<char> {
    decimal_spec(whole) + "."@ + decimal_spec(tenth) + " "@ + unit
}

/// A number of bytes is shown as so many tenths of a unit as come nearest to it.
pub open spec fn shows_tenths(n: nat, size: nat, unit: Seq<char>) -> bool {
    exists|whole: nat, tenth: nat|
        {
            &&& human_spec(n) == #[trigger] tenths_text(whole, tenth, unit)
            &&& tenth < 10
            &&& 2 * ((10 * whole + tenth) * size) <= 20 * as_double(n) + size
            &&& 20 * as_double(n) <= 2 * ((10 * whole + tenth) * size) + size
        }
}

/// The percentage is the part of a hundred that has been sent, rounded down; where there is nothing
/// to send it is a hundred.
pub proof fn law_percent_is_the_part_of_a_hundred(transferred: u64, total: u64)
    ensures
        total == 0 ==> percent_spec(transferred, total) == 100,
        total > 0 && 100 * transferred > u64::MAX ==> percent_spec(transferred, total) == 100,
        total > 0 && 100 * transferred <= u64::MAX ==> percent_spec(transferred, total) * total
            <= 100 * transferred < (percent_spec(transferred, total) + 1) * total,
{
    if total > 0 && 100 * transferred <= u64::MAX {
        let a = 100 * transferred;
        let t = total as int;
        let p = a / t;
        assert(p * t <= a < (p + 1) * t && 0 <= p <= a) by (nonlinear_arith)
            requires
                p == a / t,
                t > 0,
                a >= 0,
        ;
    }
}

} // verus!
