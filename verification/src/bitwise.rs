//! Integer-only emulation of bitwise operators.
//!
//! The term algebra has no native bit vectors, so bitwise instructions are
//! rewritten into sums, divisions and remainders by powers of two.  AND with
//! a known mask decomposes the mask into maximal runs of set bits and
//! extracts each run's window from the operand; OR, XOR and NOT derive from
//! AND by complementing within the operand width.  The spec functions
//! `bv_and`, `bv_or`, `bv_xor` and `bv_not` define the intended bitwise
//! meaning, and each emulation is proved to evaluate to it for every
//! operand value and every width.

use crate::term::{
    eval_int, it_view, it_wf, lemma_eval_add, lemma_eval_const, lemma_eval_div, lemma_eval_mod,
    lemma_eval_mul, lemma_eval_pow2, lemma_eval_sub, IntTerm, TermV,
};
use crate::u256::U256;
use vstd::arithmetic::div_mod::{
    lemma_div_denominator, lemma_fundamental_div_mod, lemma_fundamental_div_mod_converse,
    lemma_mod_breakdown, lemma_mod_multiples_basic, lemma_small_mod,
};
use vstd::arithmetic::power2::{
    lemma2_to64, lemma_pow2_adds, lemma_pow2_pos, lemma_pow2_strictly_increases, pow2,
};
use vstd::prelude::*;

verus! {

/// Bitwise AND of two natural numbers, bit by bit.
pub open spec fn bv_and(x: nat, m: nat) -> nat
    decreases m,
{
    if m == 0 {
        0
    } else {
        (x % 2) * (m % 2) + 2 * bv_and(x / 2, m / 2)
    }
}

/// Bitwise OR of two natural numbers, bit by bit.
pub open spec fn bv_or(x: nat, m: nat) -> nat
    decreases x + m,
{
    if x == 0 && m == 0 {
        0
    } else {
        (if x % 2 == 1 || m % 2 == 1 {
            1nat
        } else {
            0nat
        }) + 2 * bv_or(x / 2, m / 2)
    }
}

/// Bitwise XOR of two natural numbers, bit by bit.
pub open spec fn bv_xor(x: nat, m: nat) -> nat
    decreases x + m,
{
    if x == 0 && m == 0 {
        0
    } else {
        (if (x % 2 == 1) != (m % 2 == 1) {
            1nat
        } else {
            0nat
        }) + 2 * bv_xor(x / 2, m / 2)
    }
}

/// Bitwise NOT within width `w`.
pub open spec fn bv_not(x: nat, w: nat) -> nat {
    (pow2(w) - 1 - x % pow2(w)) as nat
}

/// AND with zero gives zero.
pub proof fn lemma_bv_and_zero(x: nat)
    ensures
        bv_and(x, 0) == 0,
{
}

/// AND of zero with anything gives zero.
pub proof fn lemma_bv_and_zero_left(m: nat)
    ensures
        bv_and(0, m) == 0,
    decreases m,
{
    if m > 0 {
        lemma_bv_and_zero_left(m / 2);
        assert(bv_and(0, m) == (0nat % 2) * (m % 2) + 2 * bv_and(0nat / 2, m / 2));
        assert(0nat % 2 == 0 && 0nat / 2 == 0);
        assert((0nat % 2) * (m % 2) == 0) by (nonlinear_arith);
    }
}

/// AND never exceeds the mask.
pub proof fn lemma_bv_and_bound(x: nat, m: nat)
    ensures
        bv_and(x, m) <= m,
    decreases m,
{
    if m > 0 {
        lemma_bv_and_bound(x / 2, m / 2);
        assert((x % 2) * (m % 2) <= m % 2) by (nonlinear_arith);
        assert(m == 2 * (m / 2) + m % 2);
    }
}

/// AND with a low all-ones mask is a remainder.
pub proof fn lemma_bv_and_ones(x: nat, n: nat)
    ensures
        bv_and(x, (pow2(n) - 1) as nat) == x % pow2(n),
    decreases n,
{
    lemma_pow2_pos(n);
    if n == 0 {
        lemma2_to64();
        assert(x % 1 == 0);
    } else {
        lemma_bv_and_ones(x / 2, (n - 1) as nat);
        lemma_pow2_adds(1, (n - 1) as nat);
        lemma2_to64();
        lemma_pow2_pos((n - 1) as nat);
        let m: nat = (pow2(n) - 1) as nat;
        assert(m == 2 * ((pow2((n - 1) as nat) - 1) as nat) + 1);
        assert(m % 2 == 1 && m / 2 == (pow2((n - 1) as nat) - 1) as nat);
        assert(bv_and(x, m) == (x % 2) + 2 * ((x / 2) % pow2((n - 1) as nat)));
        lemma_mod_breakdown(x as int, 2, pow2((n - 1) as nat) as int);
    }
}

/// AND with a run mask `[a, b]` extracts that window of bits, in place.
pub proof fn lemma_bv_and_run(x: nat, a: nat, b: nat)
    requires
        a <= b,
    ensures
        bv_and(x, (pow2((b + 1) as nat) - pow2(a)) as nat) == ((x % pow2((b + 1) as nat)) / pow2(
            a,
        )) * pow2(a),
    decreases a,
{
    lemma_pow2_pos(a);
    lemma_pow2_pos(b + 1);
    lemma_pow2_strictly_increases(a, b + 1);
    if a == 0 {
        lemma2_to64();
        lemma_bv_and_ones(x, b + 1);
        assert(((x % pow2((b + 1) as nat)) / 1) * 1 == x % pow2((b + 1) as nat));
    } else {
        lemma_bv_and_run(x / 2, (a - 1) as nat, (b - 1) as nat);
        lemma_pow2_adds(1, (a - 1) as nat);
        lemma_pow2_adds(1, b as nat);
        lemma2_to64();
        lemma_pow2_pos((a - 1) as nat);
        lemma_pow2_pos(b as nat);
        let m: nat = (pow2((b + 1) as nat) - pow2(a)) as nat;
        assert(m == 2 * ((pow2(b as nat) - pow2((a - 1) as nat)) as nat));
        assert(m % 2 == 0 && m / 2 == (pow2(b as nat) - pow2((a - 1) as nat)) as nat);
        assert(bv_and(x, m) == 2 * (((x / 2) % pow2(b as nat)) / pow2((a - 1) as nat) * pow2(
            (a - 1) as nat,
        )));
        // (x / 2) % 2^b == (x % 2^(b+1)) / 2
        lemma_mod_breakdown(x as int, 2, pow2(b as nat) as int);
        assert((x % pow2((b + 1) as nat)) / 2 == (x / 2) % pow2(b as nat));
        // dividing twice composes
        lemma_div_denominator(
            (x % pow2((b + 1) as nat)) as int,
            2,
            pow2((a - 1) as nat) as int,
        );
        assert(((x % pow2((b + 1) as nat)) / 2) / pow2((a - 1) as nat) == (x % pow2(
            (b + 1) as nat,
        )) / pow2(a));
        let q: nat = (x % pow2((b + 1) as nat)) / pow2(a);
        assert(2 * (q * pow2((a - 1) as nat)) == q * pow2(a)) by (nonlinear_arith)
            requires
                2 * pow2((a - 1) as nat) == pow2(a),
        ;
    }
}

/// AND distributes over a sum of bit-disjoint masks.
pub proof fn lemma_bv_and_additive(x: nat, m1: nat, m2: nat)
    requires
        bv_and(m1, m2) == 0,
    ensures
        bv_and(x, m1 + m2) == bv_and(x, m1) + bv_and(x, m2),
    decreases m1 + m2,
{
    if m1 + m2 > 0 {
        if m2 == 0 {
            lemma_bv_and_zero(x);
        } else {
            assert(bv_and(m1, m2) == (m1 % 2) * (m2 % 2) + 2 * bv_and(m1 / 2, m2 / 2));
            assert((m1 % 2) * (m2 % 2) == 0 && bv_and(m1 / 2, m2 / 2) == 0);
            assert(m1 % 2 == 0 || m2 % 2 == 0) by (nonlinear_arith)
                requires
                    (m1 % 2) * (m2 % 2) == 0,
            ;
            assert(m1 == 2 * (m1 / 2) + m1 % 2);
            assert(m2 == 2 * (m2 / 2) + m2 % 2);
            assert(m1 % 2 + m2 % 2 < 2);
            lemma_fundamental_div_mod_converse(
                (m1 + m2) as int,
                2,
                (m1 / 2 + m2 / 2) as int,
                (m1 % 2 + m2 % 2) as int,
            );
            assert((m1 + m2) / 2 == m1 / 2 + m2 / 2);
            assert((m1 + m2) % 2 == m1 % 2 + m2 % 2);
            lemma_bv_and_additive(x / 2, m1 / 2, m2 / 2);
            if m1 % 2 == 0 {
                assert((x % 2) * ((m1 + m2) % 2) == (x % 2) * (m1 % 2) + (x % 2) * (m2 % 2));
            } else {
                assert(m2 % 2 == 0);
                assert((x % 2) * ((m1 + m2) % 2) == (x % 2) * (m1 % 2) + (x % 2) * (m2 % 2));
            }
        }
    } else {
        lemma_bv_and_zero(x);
    }
}

/// A value below `2^a` shares no bits with a multiple of `2^a`.
pub proof fn lemma_bv_and_low_disjoint(y: nat, m: nat, a: nat)
    requires
        y < pow2(a),
        m % pow2(a) == 0,
    ensures
        bv_and(y, m) == 0,
    decreases a,
{
    lemma_pow2_pos(a);
    if m == 0 {
    } else if a == 0 {
        lemma2_to64();
        assert(y == 0);
        lemma_bv_and_zero_left(m);
    } else {
        let q: nat = m / pow2(a);
        lemma_fundamental_div_mod(m as int, pow2(a) as int);
        assert(m == q * pow2(a));
        lemma_pow2_adds(1, (a - 1) as nat);
        lemma2_to64();
        lemma_pow2_pos((a - 1) as nat);
        assert(m == 2 * (q * pow2((a - 1) as nat))) by (nonlinear_arith)
            requires
                m == q * pow2(a),
                pow2(a) == 2 * pow2((a - 1) as nat),
        ;
        lemma_fundamental_div_mod_converse(m as int, 2, (q * pow2((a - 1) as nat)) as int, 0);
        assert(m % 2 == 0 && m / 2 == q * pow2((a - 1) as nat));
        lemma_mod_multiples_basic(q as int, pow2((a - 1) as nat) as int);
        assert((m / 2) % pow2((a - 1) as nat) == 0);
        assert(y / 2 < pow2((a - 1) as nat));
        lemma_bv_and_low_disjoint(y / 2, m / 2, (a - 1) as nat);
        assert(bv_and(y, m) == (y % 2) * (m % 2) + 2 * bv_and(y / 2, m / 2));
    }
}

/// OR is AND with the complemented mask, plus the mask.
pub proof fn lemma_bv_or_via_and(x: nat, m: nat, w: nat)
    requires
        x < pow2(w),
        m < pow2(w),
    ensures
        bv_and(x, (pow2(w) - 1 - m) as nat) + m == bv_or(x, m),
    decreases w,
{
    lemma_pow2_pos(w);
    if w == 0 {
        lemma2_to64();
        assert(x == 0 && m == 0);
    } else {
        lemma_pow2_adds(1, (w - 1) as nat);
        lemma2_to64();
        lemma_pow2_pos((w - 1) as nat);
        let nm: nat = (pow2(w) - 1 - m) as nat;
        assert(nm == 2 * ((pow2((w - 1) as nat) - 1 - m / 2) as nat) + (1 - m % 2)) by {
            assert(m == 2 * (m / 2) + m % 2);
        }
        lemma_fundamental_div_mod_converse(
            nm as int,
            2,
            (pow2((w - 1) as nat) - 1 - m / 2) as int,
            (1 - m % 2) as int,
        );
        assert(nm / 2 == (pow2((w - 1) as nat) - 1 - m / 2) as nat);
        assert(nm % 2 == 1 - m % 2);
        assert(x / 2 < pow2((w - 1) as nat) && m / 2 < pow2((w - 1) as nat)) by {
            assert(x == 2 * (x / 2) + x % 2);
            assert(m == 2 * (m / 2) + m % 2);
        }
        lemma_bv_or_via_and(x / 2, m / 2, (w - 1) as nat);
        if x == 0 && m == 0 {
            lemma_bv_and_bound(x, nm);
            assert(bv_and(0, nm) == 0) by {
                lemma_bv_and_zero_left(nm);
            }
        } else {
            if nm == 0 {
                assert(m % 2 == 1);
                assert(bv_and(x, nm) == 0);
                assert(bv_or(x, m) == 1 + 2 * bv_or(x / 2, m / 2));
            } else {
                assert(bv_and(x, nm) == (x % 2) * (nm % 2) + 2 * bv_and(x / 2, nm / 2));
                if m % 2 == 1 {
                    assert((x % 2) * (nm % 2) == 0) by (nonlinear_arith)
                        requires
                            nm % 2 == 0,
                    ;
                } else {
                    assert((x % 2) * (nm % 2) == x % 2) by (nonlinear_arith)
                        requires
                            nm % 2 == 1,
                    ;
                }
            }
        }
    }
}

/// XOR is the sum of the two one-sided ANDs with complements.
pub proof fn lemma_bv_xor_via_and(x: nat, m: nat, w: nat)
    requires
        x < pow2(w),
        m < pow2(w),
    ensures
        bv_and(x, (pow2(w) - 1 - m) as nat) + bv_and((pow2(w) - 1 - x) as nat, m) == bv_xor(x, m),
    decreases w,
{
    lemma_pow2_pos(w);
    if w == 0 {
        lemma2_to64();
        assert(x == 0 && m == 0);
    } else {
        lemma_pow2_adds(1, (w - 1) as nat);
        lemma2_to64();
        lemma_pow2_pos((w - 1) as nat);
        let nm: nat = (pow2(w) - 1 - m) as nat;
        let nx: nat = (pow2(w) - 1 - x) as nat;
        assert(x == 2 * (x / 2) + x % 2);
        assert(m == 2 * (m / 2) + m % 2);
        lemma_fundamental_div_mod_converse(
            nm as int,
            2,
            (pow2((w - 1) as nat) - 1 - m / 2) as int,
            (1 - m % 2) as int,
        );
        lemma_fundamental_div_mod_converse(
            nx as int,
            2,
            (pow2((w - 1) as nat) - 1 - x / 2) as int,
            (1 - x % 2) as int,
        );
        assert(nm / 2 == (pow2((w - 1) as nat) - 1 - m / 2) as nat && nm % 2 == 1 - m % 2);
        assert(nx / 2 == (pow2((w - 1) as nat) - 1 - x / 2) as nat && nx % 2 == 1 - x % 2);
        assert(x / 2 < pow2((w - 1) as nat) && m / 2 < pow2((w - 1) as nat));
        lemma_bv_xor_via_and(x / 2, m / 2, (w - 1) as nat);
        let andl: nat = bv_and(x, nm);
        let andr: nat = bv_and(nx, m);
        if nm == 0 {
            lemma_bv_and_zero(x);
        } else {
            assert(andl == (x % 2) * (nm % 2) + 2 * bv_and(x / 2, nm / 2));
        }
        if m == 0 {
            lemma_bv_and_zero(nx);
        } else {
            assert(andr == (nx % 2) * (m % 2) + 2 * bv_and(nx / 2, m / 2));
        }
        if x == 0 && m == 0 {
            lemma_bv_and_zero_left(nm);
            lemma_bv_and_zero(nx);
        } else {
            assert((x % 2) * (nm % 2) + (nx % 2) * (m % 2) == (if (x % 2 == 1) != (m % 2 == 1) {
                1nat
            } else {
                0nat
            })) by (nonlinear_arith)
                requires
                    nm % 2 == 1 - m % 2,
                    nx % 2 == 1 - x % 2,
                    x % 2 < 2,
                    m % 2 < 2,
            ;
        }
    }
}


/// A constant node.
pub fn mk_const(u: U256) -> (r: IntTerm)
    ensures
        it_view(r) == TermV::Const(u.value()),
        it_wf(r) == u.wf(),
{
    IntTerm::Const(u)
}

/// A power-of-two constant node.
pub fn mk_pow2(e: u32) -> (r: IntTerm)
    ensures
        it_view(r) == TermV::Pow2(e as nat),
        it_wf(r),
{
    IntTerm::Pow2(e)
}

/// A sum node.
pub fn mk_add(a: IntTerm, b: IntTerm) -> (r: IntTerm)
    ensures
        it_view(r) == TermV::Add(Box::new(it_view(a)), Box::new(it_view(b))),
        it_wf(r) == (it_wf(a) && it_wf(b)),
{
    IntTerm::Add(Box::new(a), Box::new(b))
}

/// A difference node.
pub fn mk_sub(a: IntTerm, b: IntTerm) -> (r: IntTerm)
    ensures
        it_view(r) == TermV::Sub(Box::new(it_view(a)), Box::new(it_view(b))),
        it_wf(r) == (it_wf(a) && it_wf(b)),
{
    IntTerm::Sub(Box::new(a), Box::new(b))
}

/// A product node.
pub fn mk_mul(a: IntTerm, b: IntTerm) -> (r: IntTerm)
    ensures
        it_view(r) == TermV::Mul(Box::new(it_view(a)), Box::new(it_view(b))),
        it_wf(r) == (it_wf(a) && it_wf(b)),
{
    IntTerm::Mul(Box::new(a), Box::new(b))
}

/// A quotient node.
pub fn mk_div(a: IntTerm, b: IntTerm) -> (r: IntTerm)
    ensures
        it_view(r) == TermV::Div(Box::new(it_view(a)), Box::new(it_view(b))),
        it_wf(r) == (it_wf(a) && it_wf(b)),
{
    IntTerm::Div(Box::new(a), Box::new(b))
}

/// A remainder node.
pub fn mk_mod(a: IntTerm, b: IntTerm) -> (r: IntTerm)
    ensures
        it_view(r) == TermV::Mod(Box::new(it_view(a)), Box::new(it_view(b))),
        it_wf(r) == (it_wf(a) && it_wf(b)),
{
    IntTerm::Mod(Box::new(a), Box::new(b))
}

/// The largest value of an unsigned `n`-bit integer, as a constant term.
pub fn max_u_bits(n: u32) -> (r: IntTerm)
    requires
        1 <= n <= 256,
    ensures
        it_wf(r),
        it_view(r) == TermV::Const((pow2(n as nat) - 1) as nat),
        forall|env: Map<u64, int>| #[trigger] eval_int(it_view(r), env) == pow2(n as nat) - 1,
{
    let z = U256::zero();
    proof {
        lemma_pow2_pos(n as nat);
    }
    let full = z.complement(n);
    mk_const(full)
}

/// The operand reduced to `bits` bits: `x mod 2^bits`.
fn mk_reduced(x: &IntTerm, bits: u32) -> (r: IntTerm)
    requires
        it_wf(*x),
    ensures
        it_wf(r),
        forall|env: Map<u64, int>| #[trigger] eval_int(it_view(r), env) == eval_int(
            it_view(*x),
            env,
        ) % (pow2(bits as nat) as int),
{
    let xc = x.clone();
    let p = mk_pow2(bits);
    let r = mk_mod(xc, p);
    proof {
        assert(it_view(r) == TermV::Mod(
            Box::new(it_view(*x)),
            Box::new(TermV::Pow2(bits as nat)),
        ));
        assert forall|env: Map<u64, int>| #[trigger] eval_int(it_view(r), env) == eval_int(
            it_view(*x),
            env,
        ) % (pow2(bits as nat) as int) by {
            lemma_eval_mod(it_view(*x), TermV::Pow2(bits as nat), env);
            lemma_eval_pow2(bits as nat, env);
        }
    }
    r
}

/// AND against a constant mask, emulated with integer arithmetic.
///
/// The mask is decomposed into maximal runs of set bits; for each run
/// `[a, b]` the term `(((x mod 2^(b+1)) div 2^a) mod 2^(b-a+1)) * 2^a`
/// contributes that window of `x`, and the sum of all runs is the AND.
/// For every assignment of the variables the built term evaluates to
/// `bv_and` of the operand and the mask, both reduced to `bits` bits.
pub fn int_bvand_const(x: &IntTerm, mask: &U256, bits: u32) -> (r: IntTerm)
    requires
        it_wf(*x),
        mask.wf(),
        1 <= bits <= 256,
    ensures
        it_wf(r),
        forall|env: Map<u64, int>| #[trigger] eval_int(it_view(r), env) == bv_and(
            (eval_int(it_view(*x), env) % (pow2(bits as nat) as int)) as nat,
            mask.value() % pow2(bits as nat),
        ),
{
    let ghost w: nat = pow2(bits as nat);
    proof {
        lemma_pow2_pos(bits as nat);
    }
    let mask_w = mask.truncate(bits);
    let ghost mw: nat = mask_w.value();
    if mask_w.is_zero() {
        let r = mk_const(U256::zero());
        proof {
            assert forall|env: Map<u64, int>| #[trigger] eval_int(it_view(r), env) == bv_and(
                (eval_int(it_view(*x), env) % (pow2(bits as nat) as int)) as nat,
                mask.value() % pow2(bits as nat),
            ) by {
                assert(bv_and((eval_int(it_view(*x), env) % (pow2(bits as nat) as int)) as nat, 0)
                    == 0);
            }
        }
        return r;
    }
    let x0 = mk_reduced(x, bits);
    let mut m = mask_w;
    let mut i: u32 = 0;
    let mut acc = mk_const(U256::zero());
    let ghost mut acct: nat = 0;
    let mut nonzero = true;
    proof {
        lemma2_to64();
        assert(mw == acct + m.value() * pow2(0));
        assert forall|env: Map<u64, int>| #[trigger] eval_int(it_view(acc), env) == bv_and(
            (eval_int(it_view(*x), env) % (w as int)) as nat,
            acct,
        ) as int by {
            assert(bv_and((eval_int(it_view(*x), env) % (w as int)) as nat, 0) == 0);
        }
    }
    while nonzero
        invariant
            w == pow2(bits as nat),
            1 <= bits <= 256,
            m.wf(),
            it_wf(acc),
            it_wf(x0),
            it_wf(*x),
            i <= 256,
            nonzero == (m.value() != 0),
            mw == acct + m.value() * pow2(i as nat),
            acct < pow2(i as nat),
            mw < w,
            mw == mask.value() % w,
            forall|env: Map<u64, int>| #[trigger] eval_int(it_view(x0), env) == eval_int(
                it_view(*x),
                env,
            ) % (w as int),
            forall|env: Map<u64, int>| #[trigger] eval_int(it_view(acc), env) == bv_and(
                (eval_int(it_view(*x), env) % (w as int)) as nat,
                acct,
            ) as int,
        decreases m.value(),
    {
        let ghost m_outer: nat = m.value();
        // skip zero bits up to the next run
        let mut odd = m.is_odd();
        while !odd
            invariant
                m.wf(),
                i <= 256,
                m.value() != 0,
                odd == (m.value() % 2 == 1),
                mw == acct + m.value() * pow2(i as nat),
                acct < pow2(i as nat),
                mw < w,
                w == pow2(bits as nat),
                1 <= bits <= 256,
                m.value() <= m_outer,
            decreases m.value(),
        {
            proof {
                lemma_step_even(mw, acct, m.value(), i as nat, bits as nat);
            }
            m = m.half();
            i = i + 1;
            odd = m.is_odd();
        }
        // consume the run of one bits
        let a = i;
        let ghost acct0: nat = acct;
        proof {
            lemma_pow2_pos(a as nat);
            lemma_step_odd(mw, acct0, m.value(), i as nat, a as nat, bits as nat);
        }
        m = m.half();
        i = i + 1;
        odd = m.is_odd();
        while odd
            invariant
                m.wf(),
                a < i <= 256,
                odd == (m.value() % 2 == 1),
                mw == acct0 + (pow2(i as nat) - pow2(a as nat)) + m.value() * pow2(i as nat),
                acct0 < pow2(a as nat),
                mw < w,
                w == pow2(bits as nat),
                1 <= bits <= 256,
                m.value() < m_outer,
            decreases m.value(),
        {
            proof {
                lemma_pow2_strictly_increases(a as nat, i as nat);
                lemma_step_odd(mw, acct0, m.value(), i as nat, a as nat, bits as nat);
            }
            m = m.half();
            i = i + 1;
            odd = m.is_odd();
        }
        let b = i - 1;
        let xr = x0.clone();
        let t1 = mk_mod(xr, mk_pow2(b + 1));
        let t2 = mk_div(t1, mk_pow2(a));
        let t3 = mk_mod(t2, mk_pow2(b - a + 1));
        let run = mk_mul(t3, mk_pow2(a));
        let ghost runv = it_view(run);
        let ghost runmask: nat = (pow2(i as nat) - pow2(a as nat)) as nat;
        let prev = acc;
        acc = mk_add(prev, run);
        proof {
            let av = a as nat;
            let bv = b as nat;
            let iv = i as nat;
            assert(bv + 1 == iv);
            lemma_pow2_pos(av);
            lemma_pow2_pos(iv);
            lemma_pow2_strictly_increases(av, iv);
            lemma_pow2_adds(av, (iv - av) as nat);
            assert(runmask == pow2(av) * (pow2((iv - av) as nat) - 1)) by (nonlinear_arith)
                requires
                    pow2(iv) == pow2(av) * pow2((iv - av) as nat),
                    runmask == pow2(iv) - pow2(av),
            ;
            lemma_mod_multiples_basic((pow2((iv - av) as nat) - 1) as int, pow2(av) as int);
            assert(runmask % pow2(av) == 0);
            lemma_bv_and_low_disjoint(acct0, runmask, av);
            assert forall|env: Map<u64, int>| #[trigger] eval_int(it_view(acc), env) == bv_and(
                (eval_int(it_view(*x), env) % (w as int)) as nat,
                (acct0 + runmask) as nat,
            ) as int by {
                let e0: int = eval_int(it_view(*x), env) % (w as int);
                let x0v: nat = e0 as nat;
                assert(e0 >= 0);
                assert(eval_int(it_view(x0), env) == e0);
                let win: int = (e0 % (pow2(iv) as int)) / (pow2(av) as int);
                lemma_eval_pow2(iv, env);
                lemma_eval_pow2(av, env);
                lemma_eval_pow2((iv - av) as nat, env);
                lemma_eval_mod(it_view(x0), TermV::Pow2(iv), env);
                assert(it_view(t1) == TermV::Mod(Box::new(it_view(x0)), Box::new(TermV::Pow2(iv))));
                assert(eval_int(it_view(t1), env) == e0 % (pow2(iv) as int));
                lemma_eval_div(it_view(t1), TermV::Pow2(av), env);
                assert(eval_int(it_view(t2), env) == win);
                lemma_eval_mod(it_view(t2), TermV::Pow2((iv - av) as nat), env);
                assert(eval_int(it_view(t3), env) == win % (pow2((iv - av) as nat) as int));
                lemma_eval_mul(it_view(t3), TermV::Pow2(av), env);
                assert(eval_int(runv, env) == (win % (pow2((iv - av) as nat) as int)) * (pow2(
                    av,
                ) as int));
                assert(pow2(iv) as int == (pow2((iv - av) as nat) as int) * (pow2(av) as int))
                    by (nonlinear_arith)
                    requires
                        pow2(iv) == pow2(av) * pow2((iv - av) as nat),
                ;
                assert(e0 % (pow2(iv) as int) < pow2(iv) as int);
                assert(e0 % (pow2(iv) as int) >= 0);
                vstd::arithmetic::div_mod::lemma_multiply_divide_lt(
                    e0 % (pow2(iv) as int),
                    pow2(av) as int,
                    pow2((iv - av) as nat) as int,
                );
                assert(win < pow2((iv - av) as nat) as int);
                assert(win >= 0);
                lemma_small_mod(win as nat, pow2((iv - av) as nat));
                assert(win % (pow2((iv - av) as nat) as int) == win);
                lemma_bv_and_run(x0v, av, bv);
                assert(bv_and(x0v, runmask) == ((x0v % pow2(iv)) / pow2(av)) * pow2(av));
                assert(win == ((x0v % pow2(iv)) / pow2(av)) as int);
                lemma_bv_and_additive(x0v, acct0, runmask);
                assert(eval_int(it_view(prev), env) == bv_and(x0v, acct0) as int);
                lemma_eval_add(it_view(prev), runv, env);
                assert(eval_int(it_view(acc), env) == eval_int(it_view(prev), env) + eval_int(
                    runv,
                    env,
                ));
            }
            acct = (acct0 + runmask) as nat;
            assert(acct < pow2(iv));
        }
        nonzero = !m.is_zero();
        proof {
            assert(mw == acct + m.value() * pow2(i as nat));
        }
    }
    proof {
        assert(m.value() == 0);
        assert(m.value() * pow2(i as nat) == 0) by (nonlinear_arith)
            requires
                m.value() == 0,
        ;
        assert(acct == mw);
    }
    acc
}

/// One even step of the mask scan keeps the accounting identity.
proof fn lemma_step_even(mw: nat, acct: nat, mv: nat, i: nat, bits: nat)
    requires
        mv != 0,
        mv % 2 == 0,
        mw == acct + mv * pow2(i),
        acct < pow2(i),
        mw < pow2(bits),
        bits <= 256,
    ensures
        mw == acct + (mv / 2) * pow2(i + 1),
        acct < pow2(i + 1),
        mv / 2 != 0,
        mv / 2 < mv,
        i + 1 <= 256,
{
    lemma_pow2_pos(i);
    lemma_pow2_adds(i, 1);
    lemma2_to64();
    assert(mv >= 2);
    assert(mv == 2 * (mv / 2));
    assert((mv / 2) * pow2(i + 1) == mv * pow2(i)) by (nonlinear_arith)
        requires
            mv == 2 * (mv / 2),
            pow2(i + 1) == pow2(i) * 2,
    ;
    lemma_pow2_strictly_increases(i, i + 1);
    assert(pow2(i + 1) <= mv * pow2(i)) by (nonlinear_arith)
        requires
            mv >= 2,
            pow2(i + 1) == pow2(i) * 2,
    ;
    assert(pow2(i + 1) <= mw);
    if i + 1 > 256 {
        if bits < i + 1 {
            lemma_pow2_strictly_increases(bits, i + 1);
        }
        assert(false);
    }
}

/// One odd step of the run scan keeps the accounting identity.  The
/// accumulator `acct0` is what stood before the run began, at bit `a`.
proof fn lemma_step_odd(mw: nat, acct0: nat, mv: nat, i: nat, a: nat, bits: nat)
    requires
        a <= i,
        acct0 < pow2(a),
        mv % 2 == 1,
        mw == acct0 + (pow2(i) - pow2(a)) + mv * pow2(i),
        mw < pow2(bits),
        bits <= 256,
        pow2(a) <= pow2(i),
    ensures
        mw == acct0 + (pow2(i + 1) - pow2(a)) + (mv / 2) * pow2(i + 1),
        mv / 2 < mv,
        i + 1 <= 256,
        pow2(a) <= pow2(i + 1),
        acct0 + (pow2(i + 1) - pow2(a)) < pow2(i + 1),
{
    lemma_pow2_pos(i);
    lemma_pow2_pos(a);
    lemma_pow2_adds(i, 1);
    lemma2_to64();
    assert(mv >= 1);
    assert(mv == 2 * (mv / 2) + 1);
    assert(mv * pow2(i) == (mv / 2) * pow2(i + 1) + pow2(i)) by (nonlinear_arith)
        requires
            mv == 2 * (mv / 2) + 1,
            pow2(i + 1) == pow2(i) * 2,
    ;
    assert(pow2(i + 1) == pow2(i) + pow2(i));
    assert(pow2(i) <= mv * pow2(i)) by (nonlinear_arith)
        requires
            mv >= 1,
            pow2(i) > 0,
    ;
    assert(pow2(i) <= mw);
    if i + 1 > 256 {
        if bits <= i {
            if bits < i {
                lemma_pow2_strictly_increases(bits, i);
            }
            assert(false);
        }
        assert(false);
    }
}

/// NOT within width `bits`, emulated as a subtraction from the all-ones
/// constant.
pub fn int_bvnot(x: &IntTerm, bits: u32) -> (r: IntTerm)
    requires
        it_wf(*x),
        1 <= bits <= 256,
    ensures
        it_wf(r),
        forall|env: Map<u64, int>| #[trigger] eval_int(it_view(r), env) == bv_not(
            (eval_int(it_view(*x), env) % (pow2(bits as nat) as int)) as nat,
            bits as nat,
        ),
{
    proof {
        lemma_pow2_pos(bits as nat);
    }
    let z = U256::zero();
    let full = z.complement(bits);
    let c = mk_const(full);
    let xr = mk_reduced(x, bits);
    let r = mk_sub(c, xr);
    proof {
        let w: nat = pow2(bits as nat);
        assert forall|env: Map<u64, int>| #[trigger] eval_int(it_view(r), env) == bv_not(
            (eval_int(it_view(*x), env) % (w as int)) as nat,
            bits as nat,
        ) by {
            let e0: int = eval_int(it_view(*x), env) % (w as int);
            assert(0 <= e0 < w);
            lemma_small_mod(e0 as nat, w);
            lemma_eval_sub(it_view(c), it_view(xr), env);
            lemma_eval_const(full.value(), env);
            assert(eval_int(it_view(xr), env) == e0);
            assert(eval_int(it_view(r), env) == (w - 1) - e0);
        }
    }
    r
}

/// OR against a constant mask: clear the mask's bits, then add the mask.
pub fn int_bvor_const(x: &IntTerm, mask: &U256, bits: u32) -> (r: IntTerm)
    requires
        it_wf(*x),
        mask.wf(),
        1 <= bits <= 256,
    ensures
        it_wf(r),
        forall|env: Map<u64, int>| #[trigger] eval_int(it_view(r), env) == bv_or(
            (eval_int(it_view(*x), env) % (pow2(bits as nat) as int)) as nat,
            mask.value() % pow2(bits as nat),
        ),
{
    proof {
        lemma_pow2_pos(bits as nat);
    }
    let mask_w = mask.truncate(bits);
    let not_mask = mask_w.complement(bits);
    let kept = int_bvand_const(x, &not_mask, bits);
    let ghost mwv: nat = mask_w.value();
    let cm = mk_const(mask_w);
    let r = mk_add(kept, cm);
    proof {
        let w: nat = pow2(bits as nat);
        let m_w: nat = mask.value() % w;
        lemma_small_mod(not_mask.value(), w);
        assert forall|env: Map<u64, int>| #[trigger] eval_int(it_view(r), env) == bv_or(
            (eval_int(it_view(*x), env) % (w as int)) as nat,
            m_w,
        ) by {
            let e0: int = eval_int(it_view(*x), env) % (w as int);
            let x0v: nat = e0 as nat;
            assert(x0v < w);
            assert(eval_int(it_view(kept), env) == bv_and(x0v, not_mask.value() % w) as int);
            assert(not_mask.value() % w == (w - 1 - m_w) as nat);
            lemma_eval_add(it_view(kept), it_view(cm), env);
            lemma_eval_const(mwv, env);
            lemma_bv_or_via_and(x0v, m_w, bits as nat);
        }
    }
    r
}

/// XOR against a constant mask: keep the bits off the mask, flip those on
/// it, and reduce within the width.
pub fn int_bvxor_const(x: &IntTerm, mask: &U256, bits: u32) -> (r: IntTerm)
    requires
        it_wf(*x),
        mask.wf(),
        1 <= bits <= 256,
    ensures
        it_wf(r),
        forall|env: Map<u64, int>| #[trigger] eval_int(it_view(r), env) == bv_xor(
            (eval_int(it_view(*x), env) % (pow2(bits as nat) as int)) as nat,
            mask.value() % pow2(bits as nat),
        ),
{
    proof {
        lemma_pow2_pos(bits as nat);
    }
    let mask_w = mask.truncate(bits);
    let not_mask = mask_w.complement(bits);
    let part_keep = int_bvand_const(x, &not_mask, bits);
    let x_not = int_bvnot(x, bits);
    let part_flip = int_bvand_const(&x_not, &mask_w, bits);
    let sum = mk_add(part_keep, part_flip);
    let ghost sumv = it_view(sum);
    let ghost keepv = it_view(part_keep);
    let ghost flipv = it_view(part_flip);
    let r = mk_mod(sum, mk_pow2(bits));
    proof {
        let w: nat = pow2(bits as nat);
        let m_w: nat = mask.value() % w;
        let nm: nat = not_mask.value();
        lemma_small_mod(nm, w);
        lemma_small_mod(m_w, w);
        assert forall|env: Map<u64, int>| #[trigger] eval_int(it_view(r), env) == bv_xor(
            (eval_int(it_view(*x), env) % (w as int)) as nat,
            m_w,
        ) by {
            let e0: int = eval_int(it_view(*x), env) % (w as int);
            let x0v: nat = e0 as nat;
            assert(x0v < w);
            let nx: int = eval_int(it_view(x_not), env);
            assert(nx == bv_not(x0v, bits as nat)) by {
                lemma_small_mod(x0v, w);
            }
            assert(nx == w - 1 - x0v) by {
                lemma_small_mod(x0v, w);
            }
            assert(0 <= nx < w);
            lemma_small_mod(nx as nat, w);
            assert(eval_int(it_view(part_flip), env) == bv_and((nx % (w as int)) as nat, m_w) as int);
            assert((nx % (w as int)) as nat == (w - 1 - x0v) as nat);
            assert(eval_int(it_view(part_keep), env) == bv_and(x0v, nm) as int);
            lemma_bv_xor_via_and(x0v, m_w, bits as nat);
            lemma_bv_and_bound(x0v, nm);
            lemma_bv_and_bound((w - 1 - x0v) as nat, m_w);
            let total: int = (bv_and(x0v, nm) + bv_and((w - 1 - x0v) as nat, m_w)) as int;
            assert(total <= nm + m_w);
            assert(nm == w - 1 - m_w);
            assert(0 <= total < w);
            lemma_small_mod(total as nat, w);
            lemma_eval_add(keepv, flipv, env);
            assert(eval_int(sumv, env) == total);
            lemma_eval_mod(sumv, TermV::Pow2(bits as nat), env);
            lemma_eval_pow2(bits as nat, env);
            assert(eval_int(it_view(r), env) == total % (w as int));
        }
    }
    r
}

/// The spec-level AND agrees with the machine AND on 64-bit words.
pub proof fn lemma_bv_and_matches_u64(x: u64, m: u64)
    ensures
        bv_and(x as nat, m as nat) == (x & m) as nat,
    decreases m,
{
    if m == 0 {
        assert((x & 0) == 0) by (bit_vector);
    } else {
        lemma_bv_and_matches_u64(x / 2, m / 2);
        assert((x & m) == 2 * ((x / 2) & (m / 2)) + (x % 2) * (m % 2)) by (bit_vector);
    }
}

/// The spec-level OR agrees with the machine OR on 64-bit words.
pub proof fn lemma_bv_or_matches_u64(x: u64, m: u64)
    ensures
        bv_or(x as nat, m as nat) == (x | m) as nat,
    decreases x + m,
{
    if x == 0 && m == 0 {
        assert((0u64 | 0u64) == 0) by (bit_vector);
    } else {
        lemma_bv_or_matches_u64(x / 2, m / 2);
        assert((x | m) == 2 * ((x / 2) | (m / 2)) + (if x % 2 == 1 || m % 2 == 1 {
            1u64
        } else {
            0u64
        })) by (bit_vector);
    }
}

/// The spec-level XOR agrees with the machine XOR on 64-bit words.
pub proof fn lemma_bv_xor_matches_u64(x: u64, m: u64)
    ensures
        bv_xor(x as nat, m as nat) == (x ^ m) as nat,
    decreases x + m,
{
    if x == 0 && m == 0 {
        assert((0u64 ^ 0u64) == 0) by (bit_vector);
    } else {
        lemma_bv_xor_matches_u64(x / 2, m / 2);
        assert((x ^ m) == 2 * ((x / 2) ^ (m / 2)) + (if (x % 2 == 1) != (m % 2 == 1) {
            1u64
        } else {
            0u64
        })) by (bit_vector);
    }
}

/// The spec-level NOT agrees with the machine NOT on 64-bit words.
pub proof fn lemma_bv_not_matches_u64(x: u64)
    ensures
        bv_not(x as nat, 64) == (!x) as nat,
{
    vstd::arithmetic::power2::lemma2_to64_rest();
    assert((!x) == 0xffffffffffffffffu64 - x) by (bit_vector);
    lemma_small_mod(x as nat, pow2(64));
}

} // verus!
