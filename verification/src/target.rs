//! Difficulty targets: 256-bit numbers as 32 big-endian bytes.

use crate::bytes::{
    be_bytes, be_value, lemma_be_concat, lemma_be_value_bytes, lemma_be_zeros, lemma_pow256_add,
    lemma_pow256_monotone, lemma_pow256_positive, pow256, zeros,
};
use vstd::arithmetic::div_mod::lemma_div_is_ordered_by_denominator;
use vstd::arithmetic::div_mod::lemma_fundamental_div_mod;
use vstd::arithmetic::div_mod::lemma_fundamental_div_mod_converse;
use vstd::prelude::*;

verus! {

/// The target that the compact form `bits` stands for: a 23-bit coefficient, shifted by an
/// exponent that counts bytes.
pub open spec fn compact_target(bits: u32) -> nat {
    let exponent = (bits / 0x0100_0000) as nat;
    let coefficient = (bits % 0x0080_0000) as nat;
    if exponent <= 3 {
        coefficient / pow256((3 - exponent) as nat)
    } else {
        coefficient * pow256((exponent - 3) as nat)
    }
}

/// Whether the target of `bits` fits 32 bytes.
pub open spec fn compact_fits(bits: u32) -> bool {
    bits / 0x0100_0000 <= 32
}

/// The target of difficulty one: `0xffff` followed by 208 zero bits.
pub open spec fn diff1() -> nat {
    0xffff * pow256(26)
}

/// The target of a difficulty: that of difficulty one divided by it. Difficulty zero is met by
/// every hash.
pub open spec fn difficulty_target(diff: nat) -> nat {
    if diff == 0 {
        (pow256(32) - 1) as nat
    } else {
        diff1() / diff
    }
}

proof fn lemma_three_bytes(before: nat, c: u32, b0: u8, b1: u8, b2: u8, after: nat, s: Seq<u8>)
    requires
        c == 65536 * b0 + 256 * b1 + b2,
        s == zeros(before) + seq![b0, b1, b2] + zeros(after),
    ensures
        be_value(s) == c * pow256(after),
{
    let mid = seq![b0, b1, b2];
    lemma_be_zeros(before);
    lemma_be_zeros(after);
    lemma_be_concat(zeros(before), mid);
    lemma_be_concat(zeros(before) + mid, zeros(after));
    reveal_with_fuel(be_value, 4);
    assert(mid.drop_last() =~= seq![b0, b1]);
    assert(mid.drop_last().drop_last() =~= seq![b0]);
    assert(mid.drop_last().drop_last().drop_last() =~= Seq::<u8>::empty());
    assert(be_value(mid) == c);
    assert(0 * pow256(3) == 0);
}

/// Expands the compact form of a target.
pub fn bits_to_target(bits: u32) -> (target: [u8; 32])
    requires
        compact_fits(bits),
    ensures
        be_value(target@) == compact_target(bits),
        target@ == be_bytes(compact_target(bits), 32),
{
    let exp: usize = (bits / 0x0100_0000) as usize;
    let coeff: u32 = bits % 0x0080_0000;
    let mut target: [u8; 32] = [0u8; 32];
    if exp <= 3 {
        let shifted: u32 = if exp == 3 {
            coeff
        } else if exp == 2 {
            coeff / 0x100
        } else if exp == 1 {
            coeff / 0x1_0000
        } else {
            coeff / 0x100_0000
        };
        target[31] = (shifted % 256) as u8;
        target[30] = ((shifted / 0x100) % 256) as u8;
        target[29] = ((shifted / 0x1_0000) % 256) as u8;
        proof {
            assert(pow256(0) == 1 && pow256(1) == 0x100 && pow256(2) == 0x1_0000 && pow256(3)
                == 0x100_0000) by {
                reveal_with_fuel(pow256, 4);
            }
            assert(shifted as nat == compact_target(bits));
            assert(target@ =~= zeros(29) + seq![target@[29], target@[30], target@[31]] + zeros(0));
            lemma_three_bytes(29, shifted, target@[29], target@[30], target@[31], 0, target@);
        }
    } else {
        let pos: usize = 32 - exp;
        target[pos] = ((coeff / 0x1_0000) % 256) as u8;
        target[pos + 1] = ((coeff / 0x100) % 256) as u8;
        target[pos + 2] = (coeff % 256) as u8;
        proof {
            let p = pos as int;
            let after = (exp - 3) as nat;
            assert(target@ =~= zeros(pos as nat) + seq![target@[p], target@[p + 1], target@[p + 2]]
                + zeros(after));
            lemma_three_bytes(
                pos as nat,
                coeff,
                target@[p],
                target@[p + 1],
                target@[p + 2],
                after,
                target@,
            );
        }
    }
    proof {
        lemma_be_value_bytes(target@);
    }
    target
}

/// Writes `n` as the sixteen big-endian bytes that end before `end`.
fn fill_be(out: &mut [u8; 32], end: usize, n: u128)
    requires
        16 <= end <= 32,
    ensures
        be_value(final(out)@.subrange(end - 16, end as int)) == n,
        forall|i: int|
            0 <= i < 32 && !(end - 16 <= i < end) ==> #[trigger] final(out)@[i] == old(out)@[i],
{
    let mut k: usize = 0;
    let mut rest: u128 = n;
    assert(out@.subrange(end as int, end as int).len() == 0);
    proof {
        assert(rest * pow256(0) == rest) by {
            assert(pow256(0) == 1);
        }
    }
    while k < 16
        invariant
            k <= 16,
            16 <= end <= 32,
            out@.len() == 32,
            be_value(out@.subrange(end - k, end as int)) + rest * pow256(k as nat) == n,
            forall|i: int|
                0 <= i < 32 && !(end - k <= i < end) ==> #[trigger] out@[i] == old(out)@[i],
        decreases 16 - k,
    {
        let ghost tail = out@.subrange(end - k, end as int);
        let low: u8 = (rest % 256) as u8;
        out[end - 1 - k] = low;
        proof {
            let here = out@.subrange(end - k - 1, end as int);
            assert(here =~= seq![low] + tail);
            lemma_be_concat(seq![low], tail);
            assert(be_value(seq![low]) == low) by {
                assert(seq![low].drop_last() =~= Seq::<u8>::empty());
                reveal_with_fuel(be_value, 2);
            }
            let p = pow256(k as nat) as int;
            let q = (rest / 256) as int;
            let r = (rest % 256) as int;
            assert(rest as int == 256 * q + r);
            assert((256 * q + r) * p == q * (256 * p) + r * p) by (nonlinear_arith);
        }
        rest = rest / 256;
        k = k + 1;
    }
    proof {
        let p = pow256(16) as int;
        assert(p == 0x1_0000_0000_0000_0000_0000_0000_0000_0000) by {
            reveal_with_fuel(pow256, 17);
        }
        assert(rest == 0) by (nonlinear_arith)
            requires
                rest * p <= n,
                p == 0x1_0000_0000_0000_0000_0000_0000_0000_0000,
        ;
        assert(0 * p == 0);
    }
}

/// The target that a share of difficulty `diff` must meet.
pub fn diff_to_target(diff: u64) -> (target: [u8; 32])
    ensures
        be_value(target@) == difficulty_target(diff as nat),
        target@ == be_bytes(difficulty_target(diff as nat), 32),
{
    if diff == 0 {
        let all: [u8; 32] = [0xffu8; 32];
        proof {
            lemma_all_ones(all@);
            lemma_be_value_bytes(all@);
        }
        return all;
    }
    let two64: u128 = 0x1_0000_0000_0000_0000;
    let diff1_hi: u128 = 0x0000_0000_ffff_0000_0000_0000_0000_0000;
    let d: u128 = diff as u128;
    let hi: u128 = diff1_hi / d;
    let rem0: u128 = diff1_hi % d;
    let lo_hi: u128 = (rem0 * two64) / d;
    let rem1: u128 = (rem0 * two64) % d;
    let lo_lo: u128 = (rem1 * two64) / d;
    proof {
        lemma_long_division(diff1_hi as int, d as int);
    }
    let lo: u128 = lo_hi * two64 + lo_lo;

    let mut out: [u8; 32] = [0u8; 32];
    fill_be(&mut out, 16, hi);
    let ghost top = out@.subrange(0, 16);
    fill_be(&mut out, 32, lo);
    proof {
        assert(out@.subrange(0, 16) =~= top);
        assert(out@ =~= out@.subrange(0, 16) + out@.subrange(16, 32));
        lemma_be_concat(out@.subrange(0, 16), out@.subrange(16, 32));
        assert(pow256(16) == 0x1_0000_0000_0000_0000_0000_0000_0000_0000) by {
            reveal_with_fuel(pow256, 17);
        }
        assert(diff1_hi as int == 0xffff * pow256(10)) by {
            reveal_with_fuel(pow256, 11);
        }
        lemma_pow256_add(10, 16);
        let a = pow256(10) as int;
        let b = pow256(16) as int;
        assert((0xffff * a) * b == 0xffff * (a * b)) by (nonlinear_arith);
        lemma_be_value_bytes(out@);
    }
    out
}

proof fn lemma_all_ones(s: Seq<u8>)
    requires
        forall|i: int| 0 <= i < s.len() ==> s[i] == 0xff,
    ensures
        be_value(s) == pow256(s.len()) - 1,
    decreases s.len(),
{
    if s.len() > 0 {
        lemma_all_ones(s.drop_last());
    }
}

/// Dividing `n * 2^128` by `d` in three steps of 64 bits.
proof fn lemma_long_division(n: int, d: int)
    requires
        0 <= n,
        0 < d <= 0xffff_ffff_ffff_ffff,
    ensures
        ({
            let w = 0x1_0000_0000_0000_0000int;
            let hi = n / d;
            let r0 = n % d;
            let a = (r0 * w) / d;
            let r1 = (r0 * w) % d;
            let b = (r1 * w) / d;
            &&& 0 <= r0 < d
            &&& 0 <= r1 < d
            &&& 0 <= a < w
            &&& 0 <= b < w
            &&& (n * (w * w)) / d == hi * (w * w) + (a * w + b)
        }),
{
    let w = 0x1_0000_0000_0000_0000int;
    let hi = n / d;
    let r0 = n % d;
    let a = (r0 * w) / d;
    let r1 = (r0 * w) % d;
    let b = (r1 * w) / d;
    let r2 = (r1 * w) % d;
    lemma_fundamental_div_mod(n, d);
    lemma_fundamental_div_mod(r0 * w, d);
    lemma_fundamental_div_mod(r1 * w, d);
    assert(0 <= r0 < d && 0 <= r1 < d && 0 <= r2 < d) by {
        vstd::arithmetic::div_mod::lemma_mod_bound(n, d);
        vstd::arithmetic::div_mod::lemma_mod_bound(r0 * w, d);
        vstd::arithmetic::div_mod::lemma_mod_bound(r1 * w, d);
    }
    assert(0 <= a < w) by (nonlinear_arith)
        requires
            r0 * w == d * a + r1,
            0 <= r1 < d,
            0 <= r0 < d,
            0 < w,
    ;
    assert(0 <= b < w) by (nonlinear_arith)
        requires
            r1 * w == d * b + r2,
            0 <= r2 < d,
            0 <= r1 < d,
            0 < w,
    ;
    let q = hi * (w * w) + (a * w + b);
    assert(n * (w * w) == q * d + r2) by (nonlinear_arith)
        requires
            n == d * hi + r0,
            r0 * w == d * a + r1,
            r1 * w == d * b + r2,
            q == hi * (w * w) + (a * w + b),
    ;
    lemma_fundamental_div_mod_converse(n * (w * w), d, q, r2);
}

/// A higher difficulty never has a higher target.
pub proof fn target_falls_with_difficulty(low: nat, high: nat)
    requires
        low <= high,
    ensures
        difficulty_target(high) <= difficulty_target(low),
{
    if high > 0 {
        let n = diff1() as int;
        lemma_pow256_add(26, 6);
        lemma_pow256_positive(6);
        lemma_diff1_below_top();
        if low == 0 {
            lemma_div_is_ordered_by_denominator(n, 1, high as int);
            assert(n / 1 == n);
        } else {
            lemma_div_is_ordered_by_denominator(n, low as int, high as int);
        }
    }
}

/// Every target fits 32 bytes.
pub proof fn lemma_target_fits(diff: nat)
    ensures
        difficulty_target(diff) < pow256(32),
{
    lemma_pow256_positive(32);
    target_falls_with_difficulty(0, diff);
}

proof fn lemma_diff1_below_top()
    ensures
        diff1() < pow256(32),
{
    lemma_pow256_add(2, 26);
    lemma_pow256_monotone(28, 32);
    lemma_pow256_positive(26);
    assert(pow256(2) == 0x1_0000) by {
        reveal_with_fuel(pow256, 3);
    }
    let p = pow256(26) as int;
    assert(0xffff * p < 0x1_0000 * p) by (nonlinear_arith)
        requires
            p > 0,
    ;
}

} // verus!
