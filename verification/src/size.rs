//! Human-readable byte sizes ("500B", "1.2K", "2.4M").
//!
//! The one decimal of the K and M forms is the value of `bytes as f64`
//! divided by 1024 or 1048576, rounded to tenths with ties to even, as
//! `{:.1}` prints it; the `f64` conversion itself is modelled exactly
//! (nearest value with 53 significant bits, ties to even).

use vstd::prelude::*;
use vstd::arithmetic::div_mod::{lemma_div_denominator, lemma_fundamental_div_mod};
use crate::text::{dec, digit, push_decimal, string_of};

verus! {

/// One kibibyte.
pub const KIB: u64 = 1024;

/// One mebibyte.
pub const MIB: u64 = 1048576;

/// `n / d` rounded to the nearest integer, ties to the even one.
pub open spec fn round_half_even_div(n: nat, d: nat) -> nat {
    let q = n / d;
    let r = n % d;
    if 2 * r > d || (2 * r == d && q % 2 == 1) {
        q + 1
    } else {
        q
    }
}

/// The spacing of the doubles near `m`: 1 below 2^53, doubling with each
/// further binary digit.
pub open spec fn rounding_unit(m: nat) -> nat
    decreases m,
{
    if m < 0x20_0000_0000_0000 {
        1
    } else {
        2 * rounding_unit(m / 2)
    }
}

/// The value of `b as f64`: `b` rounded to a multiple of its spacing,
/// ties to the even multiple.
pub open spec fn as_f64_value(b: nat) -> nat {
    round_half_even_div(b, rounding_unit(b)) * rounding_unit(b)
}

/// The size in tenths of the unit that [`human_size_text`] shows.
pub open spec fn tenths(b: nat) -> nat {
    if b >= MIB {
        round_half_even_div(as_f64_value(b) * 10, MIB as nat)
    } else {
        round_half_even_div(b * 10, KIB as nat)
    }
}

/// A count of tenths written with one decimal, as in "1.2".
pub open spec fn one_decimal(t: nat) -> Seq<char> {
    dec(t / 10).push('.').push(digit(t % 10))
}

/// What `human_size` returns: bytes below 1024 as "<n>B", below 1048576
/// as tenths of KiB with a "K", else tenths of MiB with an "M".
pub open spec fn human_size_text(b: nat) -> Seq<char> {
    if b >= MIB {
        one_decimal(tenths(b)).push('M')
    } else if b >= KIB {
        one_decimal(tenths(b)).push('K')
    } else {
        dec(b).push('B')
    }
}

fn round_div(n: u128, d: u128) -> (r: u128)
    requires
        d > 0,
        d < 0x1_0000_0000_0000_0000_0000_0000_0000,
        n < 0x1_0000_0000_0000_0000_0000_0000_0000,
    ensures
        r == round_half_even_div(n as nat, d as nat),
        r <= n / d + 1,
{
    let q = n / d;
    let rem = n % d;
    if 2 * rem > d || (2 * rem == d && q % 2 == 1) {
        q + 1
    } else {
        q
    }
}

/// The value of `b as f64`, computed exactly in integers.
fn nearest_double(b: u64) -> (r: u128)
    ensures
        r == as_f64_value(b as nat),
        r <= 0x2_0000_0000_0000_0000,
{
    let mut m: u128 = b as u128;
    let mut p: u128 = 1;
    while m >= 0x20_0000_0000_0000
        invariant
            p >= 1,
            p == 1 || p <= b,
            m == (b as nat) / (p as nat),
            p * rounding_unit(m as nat) == rounding_unit(b as nat),
        decreases m,
    {
        proof {
            lemma_div_denominator(b as int, p as int, 2);
            let bi: int = b as int;
            let pi: int = p as int;
            let mi: int = m as int;
            lemma_fundamental_div_mod(bi, pi);
            assert(pi * 2 <= bi) by (nonlinear_arith)
                requires
                    bi == pi * (bi / pi) + (bi % pi),
                    bi % pi >= 0,
                    mi == bi / pi,
                    mi >= 2,
                    pi >= 1,
            ;
            assert((p * 2) * rounding_unit((m / 2) as nat) == p * (2 * rounding_unit(
                (m / 2) as nat,
            ))) by (nonlinear_arith);
        }
        m = m / 2;
        p = p * 2;
    }
    assert(rounding_unit(m as nat) == 1);
    assert(p * rounding_unit(m as nat) == p) by (nonlinear_arith)
        requires
            rounding_unit(m as nat) == 1,
    ;
    assert(p == rounding_unit(b as nat));
    let q = (b as u128) / p;
    assert(q == m);
    let k = round_div(b as u128, p);
    proof {
        let bi: int = b as int;
        let pi: int = p as int;
        let qi: int = q as int;
        let ki: int = k as int;
        lemma_fundamental_div_mod(bi, pi);
        assert(qi == bi / pi);
        assert(ki * pi <= bi + pi) by (nonlinear_arith)
            requires
                bi == pi * (bi / pi) + (bi % pi),
                bi % pi >= 0,
                qi == bi / pi,
                ki <= qi + 1,
                pi >= 1,
        ;
    }
    k * p
}

/// The tenths of the unit that `human_size` shows for `bytes`.
fn size_tenths(bytes: u64) -> (t: u64)
    ensures
        t == tenths(bytes as nat),
{
    if bytes >= MIB {
        let f = nearest_double(bytes);
        let t = round_div(f * 10, MIB as u128);
        t as u64
    } else {
        let t = round_div((bytes as u128) * 10, KIB as u128);
        t as u64
    }
}

/// Appends `human_size(bytes)` to `out`.
pub fn push_human_size(out: &mut Vec<char>, bytes: u64)
    ensures
        final(out)@ == old(out)@ + human_size_text(bytes as nat),
{
    if bytes >= KIB {
        let t = size_tenths(bytes);
        push_decimal(out, t / 10);
        out.push('.');
        out.push(((t % 10) as u8 + 48u8) as char);
        if bytes >= MIB {
            out.push('M');
        } else {
            out.push('K');
        }
    } else {
        push_decimal(out, bytes);
        out.push('B');
    }
    assert(final(out)@ =~= old(out)@ + human_size_text(bytes as nat));
}

/// Formats a byte count for people: "500B", "1.2K", "2.4M".
pub fn human_size(bytes: u64) -> (s: String)
    ensures
        s@ == human_size_text(bytes as nat),
{
    let mut out: Vec<char> = Vec::new();
    push_human_size(&mut out, bytes);
    assert(out@ =~= human_size_text(bytes as nat));
    string_of(&out)
}

} // verus!
