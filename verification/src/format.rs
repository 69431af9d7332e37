//! Sizes for people: bytes below 1 KB, then KB, MB, GB or TB with one
//! decimal and a decimal comma, as a 64-bit float prints them.
use vstd::prelude::*;

use crate::text::{decimal, decimal_string, push_str};

verus! {

/// `2^e`.
pub open spec fn pow2n(e: nat) -> nat
    decreases e,
{
    if e == 0 {
        1
    } else {
        2 * pow2n((e - 1) as nat)
    }
}

/// `1024^k`.
pub open spec fn pow1024(k: nat) -> nat
    decreases k,
{
    if k == 0 {
        1
    } else {
        1024 * pow1024((k - 1) as nat)
    }
}

/// `n / d` rounded to the nearest integer, halves to the even one.
pub open spec fn round_half_even(n: nat, d: nat) -> nat {
    let q = n / d;
    let r = n % d;
    if 2 * r < d {
        q
    } else if 2 * r > d {
        q + 1
    } else if q % 2 == 0 {
        q
    } else {
        q + 1
    }
}

/// `2^53`: below it every integer is a 64-bit float.
pub open spec fn f64_exact_limit() -> nat {
    0x20_0000_0000_0000
}

/// How many times `b` must be halved to fall below `2^53`.
pub open spec fn halvings(b: nat) -> nat
    decreases b,
{
    if b < f64_exact_limit() {
        0
    } else {
        1 + halvings(b / 2)
    }
}

/// The value of `b as f64`: the nearest number with 53 significant bits,
/// halves to the even one.
pub open spec fn as_f64(b: nat) -> nat {
    let e = halvings(b);
    round_half_even(b, pow2n(e)) * pow2n(e)
}

/// The unit for a size of at least 1 KB: the first of KB, MB, GB under
/// which it is below 1024, TB otherwise.
pub open spec fn unit_index(f: nat) -> nat {
    if f < pow1024(2) {
        1
    } else if f < pow1024(3) {
        2
    } else if f < pow1024(4) {
        3
    } else {
        4
    }
}

pub open spec fn unit_name(k: nat) -> Seq<char> {
    if k == 1 {
        "KB"@
    } else if k == 2 {
        "MB"@
    } else if k == 3 {
        "GB"@
    } else {
        "TB"@
    }
}

/// A size for people: `"<n> B"` below 1024 bytes; otherwise the size as a
/// float in the unit, in tenths rounded halves to even, with a decimal
/// comma, a space and the unit.
pub open spec fn spec_tamanho(bytes: u64) -> Seq<char> {
    if bytes < 1024 {
        decimal(bytes as nat) + " B"@
    } else {
        let f = as_f64(bytes as nat);
        let k = unit_index(f);
        let t = round_half_even(10 * f, pow1024(k));
        decimal(t / 10) + ","@ + decimal(t % 10) + " "@ + unit_name(k)
    }
}

fn round_half_even_u128(n: u128, d: u128) -> (r: u128)
    requires
        d > 0,
        n < 0x1_0000_0000_0000_0000_0000_0000_0000,
    ensures
        r == round_half_even(n as nat, d as nat),
        r <= n / d + 1,
{
    let q = n / d;
    let rem = n % d;
    assert(rem < d);
    if rem < d - rem {
        q
    } else if rem > d - rem {
        q + 1
    } else if q % 2 == 0 {
        q
    } else {
        q + 1
    }
}

proof fn lemma_pow2n_positive(e: nat)
    ensures
        pow2n(e) >= 1,
    decreases e,
{
    if e > 0 {
        lemma_pow2n_positive((e - 1) as nat);
    }
}

/// The value of `b as f64`, exactly.
fn f64_value(b: u64) -> (f: u128)
    ensures
        f == as_f64(b as nat),
        f <= 0x1_0000_0000_0000_1000,
        b >= 1024 ==> f >= 1024,
{
    let mut t: u64 = b;
    let mut p: u128 = 1;
    let ghost mut e: nat = 0;
    while t >= 0x20_0000_0000_0000
        invariant
            p == pow2n(e),
            t == b as nat / pow2n(e),
            halvings(b as nat) == e + halvings(t as nat),
            p == 1 || p <= b as nat,
            e > 0 ==> t >= 0x10_0000_0000_0000,
        decreases t,
    {
        proof {
            lemma_pow2n_positive(e);
            vstd::arithmetic::div_mod::lemma_div_denominator(b as int, p as int, 2);
            assert(pow2n(e + 1) == 2 * pow2n(e));
            assert(p * 2 == pow2n(e + 1));
            assert(b as nat / pow2n(e) >= 0x20_0000_0000_0000);
            assert(p * 2 <= b) by (nonlinear_arith)
                requires
                    b as nat / p as nat >= 0x20_0000_0000_0000,
                    p >= 1,
            {
                vstd::arithmetic::div_mod::lemma_fundamental_div_mod(b as int, p as int);
            }
        }
        t = t / 2;
        p = p * 2;
        proof {
            e = e + 1;
        }
    }
    proof {
        lemma_pow2n_positive(e);
    }
    let q = round_half_even_u128(b as u128, p);
    proof {
        vstd::arithmetic::div_mod::lemma_fundamental_div_mod(b as int, p as int);
        assert(q * p <= b as nat + p) by (nonlinear_arith)
            requires
                q <= b as nat / p as nat + 1,
                p >= 1,
                p * (b as nat / p as nat) <= b,
        ;
    }
    let f = q * p;
    proof {
        if e == 0 {
            assert(p == 1);
            assert(b as nat / 1 == b && b as nat % 1 == 0);
            assert(q == b);
            assert(f == b);
        }
        if b >= 1024 {
            if e == 0 {
            } else {
                assert(b >= 0x20_0000_0000_0000);
                assert(q >= b as nat / p as nat);
                assert(p * (b as nat / p as nat) + (b as nat % p as nat) == b);
                assert(t == b as nat / p as nat);
                assert(q * p >= 1024) by (nonlinear_arith)
                    requires
                        q >= t,
                        t >= 0x10_0000_0000_0000,
                        p >= 1,
                ;
            }
        }
        if e > 0 {
            assert(p * t <= b);
            assert(p <= 4096) by (nonlinear_arith)
                requires
                    p * t <= b,
                    t >= 0x10_0000_0000_0000,
                    b < 0x1_0000_0000_0000_0000,
            ;
        }
    }
    f
}

proof fn lemma_pow1024_values()
    ensures
        pow1024(1) == 1024,
        pow1024(2) == 1048576,
        pow1024(3) == 1073741824,
        pow1024(4) == 1099511627776,
{
    reveal_with_fuel(pow1024, 5);
}

/// A size in bytes for people, e.g. `"999 B"`, `"1,0 KB"`, `"5,0 MB"`.
pub fn tamanho_humano(bytes: u64) -> (s: String)
    ensures
        s@ == spec_tamanho(bytes),
{
    if bytes < 1024 {
        let mut s = decimal_string(bytes);
        push_str(&mut s, " B");
        return s;
    }
    let f = f64_value(bytes);
    proof {
        lemma_pow1024_values();
    }
    let (d, k): (u128, u64) = if f < 1048576 {
        (1024, 1)
    } else if f < 1073741824 {
        (1048576, 2)
    } else if f < 1099511627776 {
        (1073741824, 3)
    } else {
        (1099511627776, 4)
    };
    assert(d == pow1024(k as nat));
    assert(k == unit_index(f as nat));
    let t = round_half_even_u128(10 * f, d);
    let ghost tf: int = 10 * f;
    assert(t <= tf / (d as int) + 1);
    assert(tf / (d as int) <= tf / 1024) by {
        vstd::arithmetic::div_mod::lemma_div_is_ordered_by_denominator(tf, 1024, d as int);
    }
    let whole: u64 = (t / 10) as u64;
    let tenth: u64 = (t % 10) as u64;
    let mut s = decimal_string(whole);
    push_str(&mut s, ",");
    let dg = decimal_string(tenth);
    push_str(&mut s, dg.as_str());
    push_str(&mut s, " ");
    if k == 1 {
        push_str(&mut s, "KB");
    } else if k == 2 {
        push_str(&mut s, "MB");
    } else if k == 3 {
        push_str(&mut s, "GB");
    } else {
        push_str(&mut s, "TB");
    }
    s
}

} // verus!
