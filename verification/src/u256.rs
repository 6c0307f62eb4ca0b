//! Unsigned 256-bit values, stored as little-endian bit vectors.
//!
//! The shadow interpreter sees every concrete scalar as one of these: wide
//! enough for the largest machine word the bytecode manipulates, and with
//! cheap access to single bits, which the mask decomposition of the bitwise
//! emulation scans over.

use crate::coverage::fnv64_step;
use vstd::arithmetic::power2::{lemma_pow2_adds, lemma_pow2_pos, lemma_pow2_strictly_increases, pow2};
use vstd::prelude::*;

verus! {

/// The natural number encoded by a little-endian bit sequence.
pub open spec fn bits_value(s: Seq<bool>) -> nat
    decreases s.len(),
{
    if s.len() == 0 {
        0
    } else {
        (if s[0] {
            1nat
        } else {
            0nat
        }) + 2 * bits_value(s.drop_first())
    }
}

/// A bit sequence of length `n` encodes a value below `2^n`.
pub proof fn lemma_bits_value_bound(s: Seq<bool>)
    ensures
        bits_value(s) < pow2(s.len()),
    decreases s.len(),
{
    if s.len() == 0 {
        vstd::arithmetic::power2::lemma2_to64();
    } else {
        lemma_bits_value_bound(s.drop_first());
        lemma_pow2_adds(1, (s.len() - 1) as nat);
        vstd::arithmetic::power2::lemma2_to64();
    }
}

/// Appending one bit adds its weight at the top.
pub proof fn lemma_bits_value_push(s: Seq<bool>, b: bool)
    ensures
        bits_value(s.push(b)) == bits_value(s) + (if b {
            pow2(s.len())
        } else {
            0nat
        }),
    decreases s.len(),
{
    if s.len() == 0 {
        assert(s.push(b)[0] == b);
        assert(s.push(b).drop_first() =~= Seq::<bool>::empty());
        vstd::arithmetic::power2::lemma2_to64();
        assert(bits_value(Seq::<bool>::empty()) == 0);
        assert(bits_value(s.push(b)) == (if b {
            1nat
        } else {
            0nat
        }) + 2 * bits_value(s.push(b).drop_first()));
        assert(bits_value(s) == 0);
    } else {
        assert(s.push(b)[0] == s[0]);
        assert(s.push(b).drop_first() =~= s.drop_first().push(b));
        lemma_bits_value_push(s.drop_first(), b);
        lemma_pow2_adds(1, (s.len() - 1) as nat);
        vstd::arithmetic::power2::lemma2_to64();
        assert(bits_value(s.push(b)) == (if s[0] {
            1nat
        } else {
            0nat
        }) + 2 * bits_value(s.push(b).drop_first()));
        assert(bits_value(s) == (if s[0] {
            1nat
        } else {
            0nat
        }) + 2 * bits_value(s.drop_first()));
        assert(2 * (if b {
            pow2((s.len() - 1) as nat)
        } else {
            0nat
        }) == (if b {
            pow2(s.len())
        } else {
            0nat
        }));
    }
}

/// Splitting a bit sequence splits its value at the corresponding power.
pub proof fn lemma_bits_value_split(s: Seq<bool>, k: int)
    requires
        0 <= k <= s.len(),
    ensures
        bits_value(s) == bits_value(s.take(k)) + pow2(k as nat) * bits_value(s.skip(k)),
    decreases k,
{
    if k == 0 {
        assert(s.take(0) =~= Seq::<bool>::empty());
        assert(s.skip(0) =~= s);
        vstd::arithmetic::power2::lemma2_to64();
    } else {
        assert(s.len() > 0);
        lemma_bits_value_split(s.drop_first(), k - 1);
        assert(s.take(k).len() > 0);
        assert(s.take(k)[0] == s[0]);
        assert(bits_value(s.take(k)) == (if s[0] {
            1nat
        } else {
            0nat
        }) + 2 * bits_value(s.take(k).drop_first()));
        assert(s.take(k).drop_first() =~= s.drop_first().take(k - 1));
        assert(s.skip(k) =~= s.drop_first().skip(k - 1));
        lemma_pow2_adds(1, (k - 1) as nat);
        vstd::arithmetic::power2::lemma2_to64();
        assert(bits_value(s) == (if s[0] {
            1nat
        } else {
            0nat
        }) + 2 * bits_value(s.drop_first()));
        assert(bits_value(s.drop_first()) == bits_value(s.drop_first().take(k - 1)) + pow2(
            (k - 1) as nat,
        ) * bits_value(s.drop_first().skip(k - 1)));
        assert(2 * (pow2((k - 1) as nat) * bits_value(s.skip(k))) == pow2(k as nat) * bits_value(
            s.skip(k),
        )) by (nonlinear_arith)
            requires
                2 * pow2((k - 1) as nat) == pow2(k as nat),
        ;
    }
}

/// Two equally long bit sequences with the same value are the same sequence.
pub proof fn lemma_bits_value_injective(s: Seq<bool>, t: Seq<bool>)
    requires
        s.len() == t.len(),
        bits_value(s) == bits_value(t),
    ensures
        s =~= t,
    decreases s.len(),
{
    if s.len() > 0 {
        lemma_bits_value_injective(s.drop_first(), t.drop_first());
        assert(s[0] == t[0]);
        assert forall|i: int| 0 <= i < s.len() implies s[i] == t[i] by {
            if i > 0 {
                assert(s.drop_first()[i - 1] == t.drop_first()[i - 1]);
            }
        }
    }
}

/// Flipping every bit of a sequence complements its value.
pub proof fn lemma_bits_value_flip(s: Seq<bool>, t: Seq<bool>)
    requires
        s.len() == t.len(),
        forall|i: int| 0 <= i < s.len() ==> t[i] == !s[i],
    ensures
        bits_value(t) == pow2(s.len()) - 1 - bits_value(s),
    decreases s.len(),
{
    if s.len() == 0 {
        vstd::arithmetic::power2::lemma2_to64();
    } else {
        assert(forall|i: int|
            0 <= i < s.drop_first().len() ==> t.drop_first()[i] == !s.drop_first()[i]);
        lemma_bits_value_flip(s.drop_first(), t.drop_first());
        lemma_bits_value_bound(s.drop_first());
        lemma_pow2_adds(1, (s.len() - 1) as nat);
        vstd::arithmetic::power2::lemma2_to64();
    }
}

/// An unsigned 256-bit value: 256 bits, least significant first.
#[derive(Debug)]
pub struct U256 {
    bits: Vec<bool>,
}

impl Clone for U256 {
    /// A clone has the same value and shape.
    fn clone(&self) -> (r: Self)
        ensures
            r.wf() == self.wf(),
            r.value() == self.value(),
    {
        let n = self.bits.len();
        let mut bits: Vec<bool> = Vec::new();
        let mut i: usize = 0;
        while i < n
            invariant
                n == self.bits@.len(),
                i <= n,
                bits@ =~= self.bits@.take(i as int),
            decreases n - i,
        {
            bits.push(self.bits[i]);
            i = i + 1;
        }
        proof {
            assert(bits@ =~= self.bits@);
        }
        U256 { bits }
    }
}

/// Three-way comparison outcome.
#[derive(Clone, Copy, Debug, PartialEq, Eq, Structural)]
pub enum Order {
    Less,
    Equal,
    Greater,
}

impl U256 {
    /// Structural well-formedness: exactly 256 bits.
    pub closed spec fn wf(self) -> bool {
        self.bits@.len() == 256
    }

    /// The encoded natural number.
    pub closed spec fn value(self) -> nat {
        bits_value(self.bits@)
    }

    /// The all-zero value.
    pub fn zero() -> (r: U256)
        ensures
            r.wf(),
            r.value() == 0,
    {
        let mut bits: Vec<bool> = Vec::new();
        let mut i: usize = 0;
        while i < 256
            invariant
                i == bits@.len(),
                i <= 256,
                bits_value(bits@) == 0,
            decreases 256 - i,
        {
            proof {
                lemma_bits_value_push(bits@, false);
            }
            bits.push(false);
            i = i + 1;
        }
        U256 { bits }
    }

    /// Whether the value is zero.
    pub fn is_zero(&self) -> (r: bool)
        requires
            self.wf(),
        ensures
            r == (self.value() == 0),
    {
        let mut i: usize = 0;
        let mut any = false;
        while i < 256
            invariant
                self.wf(),
                i <= 256,
                any == (bits_value(self.bits@.take(i as int)) != 0),
            decreases 256 - i,
        {
            proof {
                assert(self.bits@.take(i + 1) =~= self.bits@.take(i as int).push(self.bits@[i as int]));
                lemma_bits_value_push(self.bits@.take(i as int), self.bits@[i as int]);
                lemma_pow2_pos(i as nat);
            }
            if self.bits[i] {
                any = true;
            }
            i = i + 1;
        }
        proof {
            assert(self.bits@.take(256) =~= self.bits@);
        }
        !any
    }

    /// Whether the value is odd.
    pub fn is_odd(&self) -> (r: bool)
        requires
            self.wf(),
        ensures
            r == (self.value() % 2 == 1),
    {
        proof {
            assert(self.value() == (if self.bits@[0] {
                1nat
            } else {
                0nat
            }) + 2 * bits_value(self.bits@.drop_first()));
        }
        self.bits[0]
    }

    /// Half the value, rounded down (a right shift by one).
    pub fn half(&self) -> (r: U256)
        requires
            self.wf(),
        ensures
            r.wf(),
            r.value() == self.value() / 2,
    {
        let mut bits: Vec<bool> = Vec::new();
        let mut i: usize = 1;
        while i < 256
            invariant
                self.wf(),
                1 <= i <= 256,
                bits@.len() == i - 1,
                bits@ =~= self.bits@.subrange(1, i as int),
            decreases 256 - i,
        {
            bits.push(self.bits[i]);
            i = i + 1;
        }
        proof {
            lemma_bits_value_push(bits@, false);
        }
        bits.push(false);
        let r = U256 { bits };
        proof {
            assert(r.bits@.take(255) =~= self.bits@.drop_first());
            assert(r.bits@ =~= r.bits@.take(255).push(false));
            lemma_bits_value_push(r.bits@.take(255), false);
            assert(r.value() == bits_value(self.bits@.drop_first()));
            assert(self.value() == (if self.bits@[0] {
                1nat
            } else {
                0nat
            }) + 2 * bits_value(self.bits@.drop_first()));
        }
        r
    }

    /// Keep the low `w` bits, clearing the rest: the value modulo `2^w`.
    pub fn truncate(&self, w: u32) -> (r: U256)
        requires
            self.wf(),
            w <= 256,
        ensures
            r.wf(),
            r.value() == self.value() % pow2(w as nat),
    {
        let mut bits: Vec<bool> = Vec::new();
        let mut i: usize = 0;
        while i < 256
            invariant
                self.wf(),
                w <= 256,
                i <= 256,
                bits@.len() == i,
                forall|j: int| 0 <= j < i && j < w ==> bits@[j] == self.bits@[j],
                forall|j: int| w <= j < i ==> bits@[j] == false,
            decreases 256 - i,
        {
            if i < w as usize {
                bits.push(self.bits[i]);
            } else {
                bits.push(false);
            }
            i = i + 1;
        }
        let r = U256 { bits };
        proof {
            lemma_bits_value_split(r.bits@, w as int);
            lemma_bits_value_split(self.bits@, w as int);
            assert(r.bits@.take(w as int) =~= self.bits@.take(w as int));
            assert(bits_value(r.bits@.skip(w as int)) == 0) by {
                lemma_bits_value_all_false(r.bits@.skip(w as int));
            }
            lemma_bits_value_bound(self.bits@.take(w as int));
            lemma_pow2_pos(w as nat);
            // self.value() == take + pow2(w) * skip, so value % pow2(w) == take
            vstd::arithmetic::div_mod::lemma_mod_multiples_vanish(
                bits_value(self.bits@.skip(w as int)) as int,
                bits_value(self.bits@.take(w as int)) as int,
                pow2(w as nat) as int,
            );
            vstd::arithmetic::div_mod::lemma_small_mod(
                bits_value(self.bits@.take(w as int)),
                pow2(w as nat),
            );
        }
        r
    }

    /// Flip the low `w` bits of a value already below `2^w`:
    /// the bitwise complement within width `w`.
    pub fn complement(&self, w: u32) -> (r: U256)
        requires
            self.wf(),
            w <= 256,
            self.value() < pow2(w as nat),
        ensures
            r.wf(),
            r.value() == pow2(w as nat) - 1 - self.value(),
    {
        let mut bits: Vec<bool> = Vec::new();
        let mut i: usize = 0;
        while i < 256
            invariant
                self.wf(),
                w <= 256,
                i <= 256,
                bits@.len() == i,
                forall|j: int| 0 <= j < i && j < w ==> bits@[j] == !self.bits@[j],
                forall|j: int| w <= j < i ==> bits@[j] == false,
            decreases 256 - i,
        {
            if i < w as usize {
                bits.push(!self.bits[i]);
            } else {
                bits.push(false);
            }
            i = i + 1;
        }
        let r = U256 { bits };
        proof {
            lemma_bits_value_split(r.bits@, w as int);
            lemma_bits_value_split(self.bits@, w as int);
            assert(bits_value(r.bits@.skip(w as int)) == 0) by {
                lemma_bits_value_all_false(r.bits@.skip(w as int));
            }
            lemma_bits_value_flip(self.bits@.take(w as int), r.bits@.take(w as int));
            // the high part of self is zero because its value is below 2^w
            lemma_bits_value_bound(self.bits@.take(w as int));
            lemma_pow2_pos(w as nat);
            if bits_value(self.bits@.skip(w as int)) > 0 {
                assert(pow2(w as nat) * bits_value(self.bits@.skip(w as int)) >= pow2(w as nat))
                    by (nonlinear_arith)
                    requires
                        bits_value(self.bits@.skip(w as int)) >= 1,
                        pow2(w as nat) > 0,
                ;
            }
        }
        r
    }

    /// Build a value from a 64-bit word.
    pub fn from_u64(x: u64) -> (r: U256)
        ensures
            r.wf(),
            r.value() == x,
    {
        U256::from_u64_words(x, 0, 0, 0)
    }

    /// Build a value from four 64-bit words, least significant first.
    pub fn from_u64_words(w0: u64, w1: u64, w2: u64, w3: u64) -> (r: U256)
        ensures
            r.wf(),
            r.value() == w0 + pow2(64) * w1 + pow2(128) * w2 + pow2(192) * w3,
    {
        let mut bits: Vec<bool> = Vec::new();
        U256::push_word_bits(&mut bits, w0);
        let ghost s1 = bits@;
        U256::push_word_bits(&mut bits, w1);
        let ghost s2 = bits@;
        U256::push_word_bits(&mut bits, w2);
        let ghost s3 = bits@;
        U256::push_word_bits(&mut bits, w3);
        let ghost s4 = bits@;
        let r = U256 { bits };
        proof {
            assert(s1.len() == 64 && s2.len() == 128 && s3.len() == 192 && s4.len() == 256);
            assert(s4.subrange(0, 64) =~= s1.subrange(0, 64));
            assert(s4.subrange(64, 128) =~= s2.subrange(64, 128));
            assert(s4.subrange(128, 192) =~= s3.subrange(128, 192));
            assert(s1.subrange(0, 64) =~= s1);
            assert(bits_value(s4.subrange(0, 64)) == w0);
            assert(bits_value(s4.subrange(64, 128)) == w1);
            assert(bits_value(s4.subrange(128, 192)) == w2);
            assert(bits_value(s4.subrange(192, 256)) == w3);
            lemma_bits_value_split(s4, 64);
            lemma_bits_value_split(s4.skip(64), 64);
            lemma_bits_value_split(s4.skip(64).skip(64), 64);
            assert(s4.take(64) =~= s4.subrange(0, 64));
            assert(s4.skip(64).take(64) =~= s4.subrange(64, 128));
            assert(s4.skip(64).skip(64).take(64) =~= s4.subrange(128, 192));
            assert(s4.skip(64).skip(64).skip(64) =~= s4.subrange(192, 256));
            lemma_pow2_adds(64, 64);
            lemma_pow2_adds(128, 64);
            assert(pow2(64) * (bits_value(s4.subrange(64, 128)) + pow2(64) * (bits_value(
                s4.subrange(128, 192),
            ) + pow2(64) * bits_value(s4.subrange(192, 256)))) == pow2(64) * bits_value(
                s4.subrange(64, 128),
            ) + pow2(128) * bits_value(s4.subrange(128, 192)) + pow2(192) * bits_value(
                s4.subrange(192, 256),
            )) by (nonlinear_arith)
                requires
                    pow2(128) == pow2(64) * pow2(64),
                    pow2(192) == pow2(128) * pow2(64),
            ;
        }
        r
    }

    /// Append the 64 bits of one word, least significant first.
    fn push_word_bits(bits: &mut Vec<bool>, w: u64)
        ensures
            final(bits)@.len() == old(bits)@.len() + 64,
            final(bits)@.take(old(bits)@.len() as int) =~= old(bits)@,
            bits_value(final(bits)@.subrange(
                old(bits)@.len() as int,
                old(bits)@.len() as int + 64,
            )) == w,
    {
        let ghost base = bits@.len() as int;
        let mut j: u32 = 0;
        let mut rest: u64 = w;
        proof {
            vstd::arithmetic::power2::lemma2_to64();
            assert(bits@.subrange(base, base) =~= Seq::<bool>::empty());
            assert(bits@.take(base) =~= bits@);
        }
        while j < 64
            invariant
                j <= 64,
                bits@.len() == base + j,
                base == old(bits)@.len(),
                bits@.take(base) =~= old(bits)@,
                rest == w as nat / pow2(j as nat),
                bits_value(bits@.subrange(base, base + j as int)) == w as nat % pow2(j as nat),
            decreases 64 - j,
        {
            proof {
                vstd::arithmetic::power2::lemma2_to64();
            }
            let b = rest % 2 == 1;
            proof {
                let prefix = bits@.subrange(base, base + j as int);
                assert(bits@.push(b).subrange(base, base + j + 1) =~= prefix.push(b));
                lemma_bits_value_push(prefix, b);
                lemma_pow2_adds(j as nat, 1);
                vstd::arithmetic::power2::lemma2_to64();
                lemma_pow2_pos(j as nat);
                vstd::arithmetic::div_mod::lemma_mod_breakdown(
                    w as int,
                    pow2(j as nat) as int,
                    2,
                );
            }
            bits.push(b);
            rest = rest / 2;
            j = j + 1;
            proof {
                lemma_pow2_pos((j - 1) as nat);
                vstd::arithmetic::div_mod::lemma_div_denominator(
                    w as int,
                    pow2((j - 1) as nat) as int,
                    2,
                );
                lemma_pow2_adds((j - 1) as nat, 1);
                vstd::arithmetic::power2::lemma2_to64();
            }
        }
        proof {
            assert(pow2(64) > w) by {
                vstd::arithmetic::power2::lemma2_to64_rest();
            }
            vstd::arithmetic::div_mod::lemma_small_mod(w as nat, pow2(64));
        }
    }

    /// The value as a 64-bit word.
    pub fn to_u64(&self) -> (r: u64)
        requires
            self.wf(),
            self.value() < pow2(64),
        ensures
            r == self.value(),
    {
        proof {
            lemma_bits_value_split(self.bits@, 64);
            lemma_bits_value_bound(self.bits@.take(64));
            lemma_pow2_pos(64);
            if bits_value(self.bits@.skip(64)) > 0 {
                assert(pow2(64) * bits_value(self.bits@.skip(64)) >= pow2(64)) by (nonlinear_arith)
                    requires
                        bits_value(self.bits@.skip(64)) >= 1,
                        pow2(64) > 0,
                ;
            }
            assert(bits_value(self.bits@.skip(64)) == 0);
            assert(self.value() == bits_value(self.bits@.take(64)));
        }
        let mut r: u64 = 0;
        let mut i: usize = 0;
        proof {
            vstd::arithmetic::power2::lemma2_to64();
            assert(self.bits@.take(0) =~= Seq::<bool>::empty());
        }
        while i < 64
            invariant
                self.wf(),
                i <= 64,
                r == bits_value(self.bits@.take(i as int)),
                r < pow2(i as nat),
            decreases 64 - i,
        {
            proof {
                assert(self.bits@.take(i + 1) =~= self.bits@.take(i as int).push(
                    self.bits@[i as int],
                ));
                lemma_bits_value_push(self.bits@.take(i as int), self.bits@[i as int]);
                lemma_pow2_adds(i as nat, 1);
                vstd::arithmetic::power2::lemma2_to64();
                vstd::arithmetic::power2::lemma2_to64_rest();
                vstd::bits::lemma_u64_pow2_no_overflow(i as nat);
                vstd::bits::lemma_u64_shl_is_mul(1u64, i as u64);
                if i + 1 < 64 {
                    lemma_pow2_strictly_increases((i + 1) as nat, 64);
                }
                assert(r + pow2(i as nat) < pow2((i + 1) as nat));
            }
            if self.bits[i] {
                r = r + (1u64 << (i as u64));
            }
            i = i + 1;
        }
        proof {
            assert(self.bits@.take(64) =~= self.bits@.take(64));
        }
        r
    }

    /// Fold the 256 bits into an FNV-1a hash state, least significant first.
    pub fn fp_fold(&self, h: u64) -> (r: u64)
        requires
            self.wf(),
        ensures
            r == fp_bits(h, self.value(), 256),
    {
        let mut acc: u64 = h;
        let mut i: usize = 0;
        let ghost whole: nat = self.value();
        proof {
            assert(self.bits@.skip(0) =~= self.bits@);
        }
        while i < 256
            invariant
                self.wf(),
                i <= 256,
                fp_bits(h, whole, 256) == fp_bits(acc, bits_value(self.bits@.skip(i as int)), (256
                    - i) as nat),
            decreases 256 - i,
        {
            proof {
                let rest = self.bits@.skip(i as int);
                assert(rest.len() > 0);
                assert(rest[0] == self.bits@[i as int]);
                assert(rest.drop_first() =~= self.bits@.skip(i + 1));
                assert(bits_value(rest) == (if rest[0] {
                    1nat
                } else {
                    0nat
                }) + 2 * bits_value(rest.drop_first()));
                assert(bits_value(rest) % 2 == (if rest[0] {
                    1nat
                } else {
                    0nat
                }));
                assert(bits_value(rest) / 2 == bits_value(rest.drop_first()));
            }
            let bit: u64 = if self.bits[i] {
                1
            } else {
                0
            };
            acc = (acc ^ bit).wrapping_mul(0x100000001b3u64);
            i = i + 1;
        }
        proof {
            assert(self.bits@.skip(256) =~= Seq::<bool>::empty());
        }
        acc
    }

    /// Compare two values.
    pub fn cmp(&self, other: &U256) -> (r: Order)
        requires
            self.wf(),
            other.wf(),
        ensures
            r == Order::Less <==> self.value() < other.value(),
            r == Order::Equal <==> self.value() == other.value(),
            r == Order::Greater <==> self.value() > other.value(),
    {
        let mut i: usize = 256;
        while i > 0
            invariant
                self.wf(),
                other.wf(),
                i <= 256,
                self.bits@.skip(i as int) =~= other.bits@.skip(i as int),
            decreases i,
        {
            let j = i - 1;
            if self.bits[j] != other.bits[j] {
                proof {
                    lemma_bits_value_split(self.bits@, j as int);
                    lemma_bits_value_split(other.bits@, j as int);
                    lemma_bits_value_bound(self.bits@.take(j as int));
                    lemma_bits_value_bound(other.bits@.take(j as int));
                    assert(self.bits@.skip(j as int)[0] == self.bits@[j as int]);
                    assert(other.bits@.skip(j as int)[0] == other.bits@[j as int]);
                    assert(self.bits@.skip(j as int).drop_first() =~= self.bits@.skip(i as int));
                    assert(other.bits@.skip(j as int).drop_first() =~= other.bits@.skip(i as int));
                    let hs = bits_value(self.bits@.skip(j as int));
                    let ho = bits_value(other.bits@.skip(j as int));
                    if self.bits@[j as int] {
                        assert(hs >= 1 + ho);
                    } else {
                        assert(ho >= 1 + hs);
                    }
                    lemma_pow2_pos(j as nat);
                    assert(pow2(j as nat) * hs >= pow2(j as nat) * (1 + ho) ==> pow2(j as nat) * hs
                        >= pow2(j as nat) + pow2(j as nat) * ho) by (nonlinear_arith);
                    assert(pow2(j as nat) * ho >= pow2(j as nat) * (1 + hs) ==> pow2(j as nat) * ho
                        >= pow2(j as nat) + pow2(j as nat) * hs) by (nonlinear_arith);
                    assert(hs >= 1 + ho ==> pow2(j as nat) * hs >= pow2(j as nat) * (1 + ho))
                        by (nonlinear_arith)
                        requires
                            pow2(j as nat) > 0,
                    ;
                    assert(ho >= 1 + hs ==> pow2(j as nat) * ho >= pow2(j as nat) * (1 + hs))
                        by (nonlinear_arith)
                        requires
                            pow2(j as nat) > 0,
                    ;
                }
                if self.bits[j] {
                    return Order::Greater;
                } else {
                    return Order::Less;
                }
            }
            proof {
                assert forall|m: int| 0 <= m < 256 - j implies self.bits@.skip(j as int)[m]
                    == other.bits@.skip(j as int)[m] by {
                    assert(self.bits@.skip(j as int)[m] == self.bits@[j + m]);
                    assert(other.bits@.skip(j as int)[m] == other.bits@[j + m]);
                    if m > 0 {
                        assert(self.bits@.skip(i as int)[m - 1] == other.bits@.skip(i as int)[m
                            - 1]);
                        assert(self.bits@.skip(i as int)[m - 1] == self.bits@[i + m - 1]);
                        assert(other.bits@.skip(i as int)[m - 1] == other.bits@[i + m - 1]);
                    }
                }
                assert(self.bits@.skip(j as int) =~= other.bits@.skip(j as int));
            }
            i = j;
        }
        proof {
            assert(self.bits@.skip(0) =~= self.bits@);
            assert(other.bits@.skip(0) =~= other.bits@);
        }
        Order::Equal
    }
}

/// A run of `false` bits encodes zero.
pub proof fn lemma_bits_value_all_false(s: Seq<bool>)
    requires
        forall|i: int| 0 <= i < s.len() ==> s[i] == false,
    ensures
        bits_value(s) == 0,
    decreases s.len(),
{
    if s.len() > 0 {
        lemma_bits_value_all_false(s.drop_first());
    }
}


/// A bit sequence encoding zero is all `false`.
pub proof fn lemma_bits_value_zero_all_false(s: Seq<bool>)
    requires
        bits_value(s) == 0,
    ensures
        forall|i: int| 0 <= i < s.len() ==> s[i] == false,
    decreases s.len(),
{
    if s.len() > 0 {
        lemma_bits_value_zero_all_false(s.drop_first());
        assert forall|i: int| 0 <= i < s.len() implies s[i] == false by {
            if i > 0 {
                assert(s.drop_first()[i - 1] == false);
            }
        }
    }
}

/// FNV-1a fold over the low `k` bits of a value, least significant first.
pub open spec fn fp_bits(h: u64, c: nat, k: nat) -> u64
    decreases k,
{
    if k == 0 {
        h
    } else {
        fp_bits(fnv64_step(h, (c % 2) as u64), c / 2, (k - 1) as nat)
    }
}


/// Powers of 256 are powers of two.
pub proof fn lemma_pow256_pow2(k: nat)
    ensures
        vstd::arithmetic::power::pow(256, k) == pow2(8 * k),
    decreases k,
{
    if k == 0 {
        vstd::arithmetic::power::lemma_pow0(256);
        vstd::arithmetic::power2::lemma2_to64();
    } else {
        lemma_pow256_pow2((k - 1) as nat);
        assert(vstd::arithmetic::power::pow(256, k) == 256 * vstd::arithmetic::power::pow(
            256,
            (k - 1) as nat,
        )) by {
            vstd::arithmetic::power::lemma_pow_adds(256, 1, (k - 1) as nat);
            vstd::arithmetic::power::lemma_pow1(256);
        }
        lemma_pow2_adds(8, (8 * k - 8) as nat);
        vstd::arithmetic::power2::lemma2_to64();
        assert(pow2(8 * k) == 256 * pow2((8 * k - 8) as nat));
    }
}

/// Little-endian bytes split like their value.
pub proof fn lemma_le_val_split(s: Seq<u8>, k: int)
    requires
        0 <= k <= s.len(),
    ensures
        crate::codec::le_val(s) == crate::codec::le_val(s.take(k))
            + vstd::arithmetic::power::pow(256, k as nat) * crate::codec::le_val(s.skip(k)),
    decreases k,
{
    if k == 0 {
        assert(s.take(0) =~= Seq::<u8>::empty());
        assert(s.skip(0) =~= s);
        vstd::arithmetic::power::lemma_pow0(256);
    } else {
        lemma_le_val_split(s.drop_first(), k - 1);
        assert(s.take(k).len() > 0);
        assert(s.take(k)[0] == s[0]);
        assert(crate::codec::le_val(s.take(k)) == (s[0] + 256 * crate::codec::le_val(
            s.take(k).drop_first(),
        )) as nat);
        assert(s.take(k).drop_first() =~= s.drop_first().take(k - 1));
        assert(s.skip(k) =~= s.drop_first().skip(k - 1));
        assert(crate::codec::le_val(s) == (s[0] + 256 * crate::codec::le_val(
            s.drop_first(),
        )) as nat);
        assert(vstd::arithmetic::power::pow(256, k as nat) == 256
            * vstd::arithmetic::power::pow(256, (k - 1) as nat)) by {
            vstd::arithmetic::power::lemma_pow_adds(256, 1, (k - 1) as nat);
            vstd::arithmetic::power::lemma_pow1(256);
        }
        assert(256 * (vstd::arithmetic::power::pow(256, (k - 1) as nat) * crate::codec::le_val(
            s.skip(k),
        )) == vstd::arithmetic::power::pow(256, k as nat) * crate::codec::le_val(s.skip(k)))
            by (nonlinear_arith)
            requires
                vstd::arithmetic::power::pow(256, k as nat) == 256
                    * vstd::arithmetic::power::pow(256, (k - 1) as nat),
        ;
    }
}

/// One 64-bit word read from eight little-endian bytes.
fn word_from_bytes(bytes: &Vec<u8>, off: usize) -> (w: u64)
    requires
        off + 8 <= bytes@.len(),
    ensures
        w == crate::codec::le_val(bytes@.subrange(off as int, off as int + 8)),
{
    proof {
        vstd::arithmetic::power::lemma_pow0(256);
    }
    let mut w: u64 = 0;
    let mut j: usize = 8;
    proof {
        assert(bytes@.subrange(off + 8, off + 8) =~= Seq::<u8>::empty());
    }
    while j > 0
        invariant
            off + 8 <= bytes@.len(),
            j <= 8,
            w == crate::codec::le_val(bytes@.subrange(off + j, off as int + 8)),
            w < vstd::arithmetic::power::pow(256, (8 - j) as nat),
        decreases j,
    {
        proof {
            lemma_pow256_pow2((8 - j) as nat);
            lemma_pow256_pow2((8 - j + 1) as nat);
            vstd::arithmetic::power2::lemma2_to64();
            vstd::arithmetic::power2::lemma2_to64_rest();
            if 8 * (8 - j + 1) < 64 {
                lemma_pow2_strictly_increases((8 * (8 - j + 1)) as nat, 64);
            }
            assert(256 * w + 256 <= 256 * vstd::arithmetic::power::pow(256, (8 - j) as nat))
                by (nonlinear_arith)
                requires
                    w < vstd::arithmetic::power::pow(256, (8 - j) as nat),
            ;
            assert(256 * vstd::arithmetic::power::pow(256, (8 - j) as nat)
                == vstd::arithmetic::power::pow(256, (8 - j + 1) as nat)) by {
                vstd::arithmetic::power::lemma_pow_adds(256, 1, (8 - j) as nat);
                vstd::arithmetic::power::lemma_pow1(256);
            }
        }
        j = j - 1;
        let blen = bytes.len();
        proof {
            assert(off + j < blen);
        }
        let b = bytes[off + j];
        proof {
            let sub = bytes@.subrange(off + j, off as int + 8);
            assert(sub.len() > 0);
            assert(sub[0] == bytes@[off + j]);
            assert(sub.drop_first() =~= bytes@.subrange(off + j + 1, off as int + 8));
            assert(crate::codec::le_val(sub) == (sub[0] + 256 * crate::codec::le_val(
                sub.drop_first(),
            )) as nat);
        }
        w = w * 256 + (b as u64);
    }
    proof {
        assert(bytes@.subrange(off as int, off as int + 8) =~= bytes@.subrange(
            off + 0,
            off as int + 8,
        ));
    }
    w
}

impl U256 {
    /// Build a value from 32 little-endian bytes.
    pub fn from_le_bytes(bytes: &Vec<u8>) -> (r: U256)
        requires
            bytes@.len() == 32,
        ensures
            r.wf(),
            r.value() == crate::codec::le_val(bytes@),
    {
        let w0 = word_from_bytes(bytes, 0);
        let w1 = word_from_bytes(bytes, 8);
        let w2 = word_from_bytes(bytes, 16);
        let w3 = word_from_bytes(bytes, 24);
        let r = U256::from_u64_words(w0, w1, w2, w3);
        proof {
            let s = bytes@;
            lemma_le_val_split(s, 8);
            lemma_le_val_split(s.skip(8), 8);
            lemma_le_val_split(s.skip(8).skip(8), 8);
            assert(s.take(8) =~= s.subrange(0, 8));
            assert(s.skip(8).take(8) =~= s.subrange(8, 16));
            assert(s.skip(8).skip(8).take(8) =~= s.subrange(16, 24));
            assert(s.skip(8).skip(8).skip(8) =~= s.subrange(24, 32));
            assert(s.skip(8).subrange(0, 8) =~= s.subrange(8, 16));
            assert(s.skip(8).skip(8).subrange(0, 8) =~= s.subrange(16, 24));
            assert(s.subrange(16, 32).subrange(8, 16) =~= s.subrange(24, 32));
            lemma_pow256_pow2(8);
            assert(8 * 8 == 64);
            let p: int = vstd::arithmetic::power::pow(256, 8);
            assert(p == pow2(64));
            let v0: int = crate::codec::le_val(s.subrange(0, 8)) as int;
            let v1: int = crate::codec::le_val(s.subrange(8, 16)) as int;
            let v2: int = crate::codec::le_val(s.subrange(16, 24)) as int;
            let v3: int = crate::codec::le_val(s.subrange(24, 32)) as int;
            assert(crate::codec::le_val(s) == v0 + p * (v1 + p * (v2 + p * v3)));
            lemma_pow2_adds(64, 64);
            lemma_pow2_adds(128, 64);
            assert(p * (v1 + p * (v2 + p * v3)) == pow2(64) * v1 + pow2(128) * v2 + pow2(192)
                * v3) by (nonlinear_arith)
                requires
                    p == pow2(64),
                    pow2(128) == pow2(64) * pow2(64),
                    pow2(192) == pow2(128) * pow2(64),
            ;
        }
        r
    }
}


/// A well-formed 256-bit value is below `2^256`.
pub proof fn lemma_bits256_bound(u: U256)
    requires
        u.wf(),
    ensures
        u.value() < pow2(256),
{
    u.lemma_value_bound();
}

impl U256 {
    /// The value bound from the bit width.
    pub proof fn lemma_value_bound(self)
        requires
            self.wf(),
        ensures
            self.value() < pow2(256),
    {
        lemma_bits_value_bound(self.bits@);
    }

    /// Whether the value fits 128 bits.
    pub fn fits_u128(&self) -> (r: bool)
        requires
            self.wf(),
        ensures
            r == (self.value() < pow2(128)),
    {
        let hi = self.truncate(128);
        let ghost w: nat = pow2(128);
        let mut i: usize = 128;
        let mut any = false;
        while i < 256
            invariant
                self.wf(),
                128 <= i <= 256,
                any == (exists|j: int| 128 <= j < i && self.spec_bit(j)),
            decreases 256 - i,
        {
            if self.bit_at(i) {
                any = true;
            }
            i = i + 1;
        }
        proof {
            lemma_bits_value_split(self.bits@, 128);
            lemma_bits_value_bound(self.bits@.take(128));
            lemma_pow2_pos(128);
            if any {
                let j = choose|j: int| 128 <= j < 256 && self.spec_bit(j);
                assert(self.bits@.skip(128)[j - 128] == self.bits@[j]);
                assert(bits_value(self.bits@.skip(128)) > 0) by {
                    if bits_value(self.bits@.skip(128)) == 0 {
                        lemma_bits_value_zero_all_false(self.bits@.skip(128));
                    }
                }
                assert(pow2(128) * bits_value(self.bits@.skip(128)) >= pow2(128))
                    by (nonlinear_arith)
                    requires
                        bits_value(self.bits@.skip(128)) >= 1,
                        pow2(128) > 0,
                ;
            } else {
                assert forall|j: int|
                    0 <= j < self.bits@.skip(128).len() implies self.bits@.skip(128)[j]
                    == false by {
                    assert(self.bits@.skip(128)[j] == self.bits@[j + 128]);
                    assert(!self.spec_bit(j + 128));
                }
                lemma_bits_value_all_false(self.bits@.skip(128));
            }
        }
        !any
    }

    /// One bit of the value.
    pub closed spec fn spec_bit(self, i: int) -> bool
        recommends
            0 <= i < 256,
    {
        self.bits@[i]
    }

    /// Read one bit.
    pub fn bit_at(&self, i: usize) -> (r: bool)
        requires
            self.wf(),
            i < 256,
        ensures
            r == self.spec_bit(i as int),
    {
        self.bits[i]
    }

    /// The value as a 128-bit word.
    pub fn to_u128(&self) -> (r: u128)
        requires
            self.wf(),
            self.value() < pow2(128),
        ensures
            r == self.value(),
    {
        let lo = U256::extract_u64(self, 0);
        let hi = U256::extract_u64(self, 64);
        proof {
            lemma_bits_value_split(self.bits@, 128);
            lemma_bits_value_bound(self.bits@.take(128));
            lemma_pow2_pos(128);
            if bits_value(self.bits@.skip(128)) > 0 {
                assert(pow2(128) * bits_value(self.bits@.skip(128)) >= pow2(128))
                    by (nonlinear_arith)
                    requires
                        bits_value(self.bits@.skip(128)) >= 1,
                        pow2(128) > 0,
                ;
            }
            assert(self.value() == bits_value(self.bits@.take(128)));
            lemma_bits_value_split(self.bits@.take(128), 64);
            assert(self.bits@.take(128).take(64) =~= self.bits@.subrange(0, 64));
            assert(self.bits@.take(128).skip(64) =~= self.bits@.subrange(64, 128));
            vstd::arithmetic::power2::lemma2_to64_rest();
        }
        (lo as u128) + (hi as u128) * 0x10000000000000000u128
    }

    /// The 64-bit word at a bit offset.
    fn extract_u64(&self, off: usize) -> (r: u64)
        requires
            self.wf(),
            off + 64 <= 256,
        ensures
            r == bits_value(self.bits@.subrange(off as int, off as int + 64)),
    {
        proof {
            vstd::arithmetic::power2::lemma2_to64();
        }
        let mut r: u64 = 0;
        let mut i: usize = 0;
        proof {
            assert(self.bits@.subrange(off as int, off as int) =~= Seq::<bool>::empty());
        }
        while i < 64
            invariant
                self.wf(),
                off + 64 <= 256,
                i <= 64,
                r == bits_value(self.bits@.subrange(off as int, off + i)),
                r < pow2(i as nat),
            decreases 64 - i,
        {
            proof {
                let pre = self.bits@.subrange(off as int, off + i);
                assert(self.bits@.subrange(off as int, off + i + 1) =~= pre.push(
                    self.bits@[off + i],
                ));
                lemma_bits_value_push(pre, self.bits@[off + i]);
                lemma_pow2_adds(i as nat, 1);
                vstd::arithmetic::power2::lemma2_to64();
                vstd::arithmetic::power2::lemma2_to64_rest();
                vstd::bits::lemma_u64_pow2_no_overflow(i as nat);
                vstd::bits::lemma_u64_shl_is_mul(1u64, i as u64);
                if i + 1 < 64 {
                    lemma_pow2_strictly_increases((i + 1) as nat, 64);
                }
            }
            if self.bits[off + i] {
                r = r + (1u64 << (i as u64));
            }
            i = i + 1;
        }
        r
    }
}

} // verus!
