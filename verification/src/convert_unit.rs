//! Human-readable sizes: a byte count written in B, KiB, MiB or GiB with two
//! decimals.
//!
//! The size is first taken as the nearest double-precision value (53
//! significant bits, ties to even), then divided by 1024 as long as it is at
//! least 1024 and a larger unit exists; every such division is exact. The
//! quotient is written with two decimals, the last one rounded half to even.
use vstd::prelude::*;
use crate::text::{decimal, digit_char, push_chars, push_decimal, push_digit};

verus! {

/// 2^53: below it every integer is a double-precision value.
pub open spec fn two_pow_53() -> nat {
    0x20_0000_0000_0000
}

/// The power of two that is the unit in the last place of the double nearest
/// to a number whose integer part has the bits of `x`, scaled by `p`.
pub open spec fn last_place(x: nat, p: nat) -> nat
    decreases x,
{
    if x < two_pow_53() {
        p
    } else {
        last_place(x / 2, p * 2)
    }
}

/// `b` rounded to the nearest double-precision value, ties to even.
pub open spec fn nearest_double(b: nat) -> nat {
    let p = last_place(b, 1);
    let q = b / p;
    let r = b % p;
    if 2 * r > p || (2 * r == p && q % 2 == 1) {
        (q + 1) * p
    } else {
        q * p
    }
}

/// Which unit a value is written in: 0 for B up to 3 for GiB.
pub open spec fn unit_of(f: nat) -> nat {
    if f < 1024 {
        0
    } else if f < 1024 * 1024 {
        1
    } else if f < 1024 * 1024 * 1024 {
        2
    } else {
        3
    }
}

/// How many bytes the unit numbered `k` holds.
pub open spec fn unit_size(k: nat) -> nat {
    if k == 0 {
        1
    } else if k == 1 {
        1024
    } else if k == 2 {
        1024 * 1024
    } else {
        1024 * 1024 * 1024
    }
}

/// The name of the unit numbered `k`.
pub open spec fn unit_name(k: nat) -> Seq<char> {
    if k == 0 {
        seq!['B']
    } else if k == 1 {
        seq!['K', 'i', 'B']
    } else if k == 2 {
        seq!['M', 'i', 'B']
    } else {
        seq!['G', 'i', 'B']
    }
}

/// `n / d` rounded to the nearest integer, ties to even.
pub open spec fn round_half_even(n: nat, d: nat) -> nat {
    let q = n / d;
    let r = n % d;
    if 2 * r > d || (2 * r == d && q % 2 == 1) {
        q + 1
    } else {
        q
    }
}

/// The text for `bytes`: the value in its unit with two decimals, then the
/// unit's name.
pub open spec fn storage_text(bytes: nat) -> Seq<char> {
    let k = shown_unit(bytes);
    let h = shown_hundredths(bytes);
    decimal(h / 100) + seq!['.', digit_char((h / 10) % 10), digit_char(h % 10)] + unit_name(k)
}

/// The unit `bytes` is shown in: 0 for B up to 3 for GiB.
pub open spec fn shown_unit(bytes: nat) -> nat {
    unit_of(nearest_double(bytes))
}

/// The number shown for `bytes`, in hundredths of its unit.
pub open spec fn shown_hundredths(bytes: nat) -> nat {
    round_half_even(nearest_double(bytes) * 100, unit_size(shown_unit(bytes)))
}

/// The powers of two that are the last place of the double nearest to a
/// number below 2^64.
pub open spec fn small_power(p: nat) -> bool {
    p == 1 || p == 2 || p == 4 || p == 8 || p == 16 || p == 32 || p == 64 || p == 128 || p == 256
        || p == 512 || p == 1024 || p == 2048
}

/// 2^52.
pub open spec fn two_pow_52() -> nat {
    0x10_0000_0000_0000
}

proof fn lemma_last_place_from(x: nat, p: nat, b: nat)
    requires
        b < 0x1_0000_0000_0000_0000,
        small_power(p),
        x == b / p,
        p == 1 || b >= two_pow_52() * p,
    ensures
        small_power(last_place(x, p)),
        b / last_place(x, p) < two_pow_53(),
        last_place(x, p) == 1 || b >= two_pow_52() * last_place(x, p),
    decreases x,
{
    if x >= two_pow_53() {
        vstd::arithmetic::div_mod::lemma_div_denominator(b as int, p as int, 2);
        vstd::arithmetic::div_mod::lemma_fundamental_div_mod(b as int, p as int);
        vstd::arithmetic::div_mod::lemma_mod_pos_bound(b as int, p as int);
        assert(x * p >= two_pow_53() * p) by (nonlinear_arith)
            requires
                x >= two_pow_53(),
        ;
        assert((x / 2) == b / (p * 2));
        lemma_last_place_from(x / 2, p * 2, b);
    }
}

/// The last place of the double nearest to `b`, for `b` below 2^64: a small
/// power of two `p` with `b / p` under 2^53, and `b` at least 2^52 `p` when
/// `p` is more than 1.
proof fn lemma_last_place(b: nat)
    requires
        b < 0x1_0000_0000_0000_0000,
    ensures
        small_power(last_place(b, 1)),
        b < two_pow_53() * last_place(b, 1),
        last_place(b, 1) == 1 || b >= two_pow_52() * last_place(b, 1),
        nearest_double(b) == round_half_even(b, last_place(b, 1)) * last_place(b, 1),
{
    lemma_last_place_from(b, 1, b);
    let p = last_place(b, 1);
    vstd::arithmetic::div_mod::lemma_fundamental_div_mod(b as int, p as int);
    vstd::arithmetic::div_mod::lemma_mod_pos_bound(b as int, p as int);
    assert(b < two_pow_53() * p) by (nonlinear_arith)
        requires
            b == p * (b / p) + b % p,
            b % p < p,
            b / p < two_pow_53(),
            p >= 1,
    ;
}

/// Rounding half to even keeps order.
proof fn lemma_round_monotone(n1: nat, n2: nat, d: nat)
    requires
        n1 <= n2,
        d > 0,
    ensures
        round_half_even(n1, d) <= round_half_even(n2, d),
{
    vstd::arithmetic::div_mod::lemma_div_is_ordered(n1 as int, n2 as int, d as int);
    vstd::arithmetic::div_mod::lemma_fundamental_div_mod(n1 as int, d as int);
    vstd::arithmetic::div_mod::lemma_fundamental_div_mod(n2 as int, d as int);
    vstd::arithmetic::div_mod::lemma_mod_pos_bound(n1 as int, d as int);
    vstd::arithmetic::div_mod::lemma_mod_pos_bound(n2 as int, d as int);
}

/// The nearest double keeps order, below 2^64.
proof fn lemma_nearest_monotone(a: nat, b: nat)
    requires
        a <= b,
        b < 0x1_0000_0000_0000_0000,
    ensures
        nearest_double(a) <= nearest_double(b),
{
    lemma_last_place(a);
    lemma_last_place(b);
    let pa = last_place(a, 1);
    let pb = last_place(b, 1);
    let ra = round_half_even(a, pa);
    let rb = round_half_even(b, pb);
    vstd::arithmetic::div_mod::lemma_fundamental_div_mod(a as int, pa as int);
    vstd::arithmetic::div_mod::lemma_mod_pos_bound(a as int, pa as int);
    vstd::arithmetic::div_mod::lemma_fundamental_div_mod(b as int, pb as int);
    vstd::arithmetic::div_mod::lemma_mod_pos_bound(b as int, pb as int);
    if pa == pb {
        lemma_round_monotone(a, b, pa);
        vstd::arithmetic::mul::lemma_mul_inequality(ra as int, rb as int, pa as int);
    } else if pa > pb {
        // Then pa >= 2 pb, so a >= 2^52 pa >= 2^53 pb > b.
        assert(pa >= 2 * pb);
        assert(a >= two_pow_52() * pa);
        assert(two_pow_52() * pa >= two_pow_53() * pb) by (nonlinear_arith)
            requires
                pa >= 2 * pb,
        ;
        assert(false);
    } else {
        assert(pb >= 2 * pa);
        // ra is at most a / pa + 1, at most 2^53.
        assert(ra <= two_pow_53());
        assert(ra * pa <= two_pow_53() * pa) by (nonlinear_arith)
            requires
                ra <= two_pow_53(),
        ;
        // b / pb is at least 2^52.
        vstd::arithmetic::div_mod::lemma_div_is_ordered(
            (two_pow_52() * pb) as int,
            b as int,
            pb as int,
        );
        vstd::arithmetic::div_mod::lemma_div_by_multiple(two_pow_52() as int, pb as int);
        assert(rb >= b / pb);
        assert(rb * pb >= two_pow_52() * pb) by (nonlinear_arith)
            requires
                rb >= two_pow_52(),
        ;
        assert(two_pow_52() * pb >= two_pow_53() * pa) by (nonlinear_arith)
            requires
                pb >= 2 * pa,
        ;
    }
}

/// The nearest double-precision value to `b`, as an integer.
fn nearest_double_exec(b: u128) -> (f: u128)
    requires
        b < 0x1_0000_0000_0000_0000,
    ensures
        f == nearest_double(b as nat),
        f <= 0x1_0000_0000_0000_0000,
{
    let mut x = b;
    let mut p: u128 = 1;
    while x >= 0x20_0000_0000_0000
        invariant
            p >= 1,
            x == b / p,
            last_place(x as nat, p as nat) == last_place(b as nat, 1),
            p == 1 || p == 2 || p == 4 || p == 8 || p == 16 || p == 32 || p == 64 || p == 128
                || p == 256 || p == 512 || p == 1024 || p == 2048,
            b < 0x1_0000_0000_0000_0000,
            x >= 0x20_0000_0000_0000 ==> x * p <= b,
        decreases x,
    {
        proof {
            vstd::arithmetic::div_mod::lemma_div_denominator(b as int, p as int, 2);
            vstd::arithmetic::div_mod::lemma_fundamental_div_mod(b as int, (p * 2) as int);
            assert(x * p >= p) by (nonlinear_arith)
                requires
                    x >= 1,
                    p >= 1,
            ;
            assert(p * 0x20_0000_0000_0000 <= b) by (nonlinear_arith)
                requires
                    x >= 0x20_0000_0000_0000,
                    x * p <= b,
                    p >= 1,
            ;
        }
        x = x / 2;
        p = p * 2;
        proof {
            assert(x >= 0x20_0000_0000_0000 ==> x * p <= b) by {
                vstd::arithmetic::div_mod::lemma_fundamental_div_mod(b as int, p as int);
                vstd::arithmetic::div_mod::lemma_mod_pos_bound(b as int, p as int);
            }
        }
    }
    proof {
        vstd::arithmetic::div_mod::lemma_fundamental_div_mod(b as int, p as int);
        vstd::arithmetic::div_mod::lemma_mod_pos_bound(b as int, p as int);
    }
    let r = b % p;
    let up = 2 * r > p || (2 * r == p && x % 2 == 1);
    let q = if up {
        x + 1
    } else {
        x
    };
    proof {
        assert(q * p <= b + p) by (nonlinear_arith)
            requires
                q <= x + 1,
                x * p <= b,
        ;
        if up {
            assert(q * p <= 0x1_0000_0000_0000_0000) by (nonlinear_arith)
                requires
                    q <= 0x20_0000_0000_0000,
                    p <= 2048,
            ;
        } else {
            assert(q * p <= b);
        }
    }
    q * p
}

/// The size `bytes` in its unit with two decimals, such as `981.70MiB` for
/// 1029384756.
pub fn convert_storage_unit(bytes: usize) -> (s: String)
    ensures
        s@ == storage_text(bytes as nat),
{
    format_size(bytes as u64)
}

/// `convert_storage_unit` for a size given as a `u64`.
pub fn format_size(bytes: u64) -> (s: String)
    ensures
        s@ == storage_text(bytes as nat),
{
    let f = nearest_double_exec(bytes as u128);
    let (k, d): (u128, u128) = if f < 1024 {
        (0, 1)
    } else if f < 1024 * 1024 {
        (1, 1024)
    } else if f < 1024 * 1024 * 1024 {
        (2, 1024 * 1024)
    } else {
        (3, 1024 * 1024 * 1024)
    };
    let n = f * 100;
    let q = n / d;
    let r = n % d;
    let h = if 2 * r > d || (2 * r == d && q % 2 == 1) {
        q + 1
    } else {
        q
    };
    let mut out: Vec<char> = Vec::new();
    push_decimal(&mut out, h / 100);
    out.push('.');
    push_digit(&mut out, (h / 10) % 10);
    push_digit(&mut out, h % 10);
    if k == 0 {
        out.push('B');
    } else {
        if k == 1 {
            out.push('K');
        } else if k == 2 {
            out.push('M');
        } else {
            out.push('G');
        }
        out.push('i');
        out.push('B');
    }
    assert(out@ =~= storage_text(bytes as nat));
    let mut s = String::new();
    push_chars(&mut s, out.as_slice());
    s
}

} // verus!

verus! {

/// Sizes shown grow with the byte count: a larger count is shown in the same
/// unit or a larger one, and in the same unit with a number at least as
/// large (compared in hundredths, the two decimals shown).
pub proof fn law_shown_size_grows(a: nat, b: nat)
    requires
        a <= b,
        b < 0x1_0000_0000_0000_0000,
    ensures
        shown_unit(a) <= shown_unit(b),
        shown_unit(a) == shown_unit(b) ==> shown_hundredths(a) <= shown_hundredths(b),
{
    lemma_nearest_monotone(a, b);
    if shown_unit(a) == shown_unit(b) {
        lemma_round_monotone(
            nearest_double(a) * 100,
            nearest_double(b) * 100,
            unit_size(shown_unit(a)),
        );
    }
}

/// A size under 1024 bytes is shown exactly, in bytes: `512.00B`.
pub proof fn law_small_sizes_exact(b: nat)
    requires
        b < 1024,
    ensures
        storage_text(b) == decimal(b) + ".00B"@,
{
    reveal_strlit(".00B");
    assert(last_place(b, 1) == 1);
    assert(b / 1 == b && b % 1 == 0);
    assert(nearest_double(b) == b);
    assert((b * 100) / 1 == b * 100 && (b * 100) % 1 == 0);
    let h = round_half_even(b * 100, 1);
    assert(h == b * 100);
    assert(h / 100 == b);
    assert((h / 10) % 10 == 0);
    assert(h % 10 == 0);
    assert(storage_text(b) =~= decimal(b) + ".00B"@);
}

} // verus!
