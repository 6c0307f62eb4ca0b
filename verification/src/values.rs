//! Concrete runtime values as the shadow interpreter sees them.
//!
//! The virtual machine hands the tracer the concrete operand stack.  Scalars
//! (booleans and unsigned integers up to 256 bits) carry a value; anything
//! else — vectors, structs, references — is opaque here.

use crate::u256::{Order, U256};
use vstd::arithmetic::div_mod::lemma_fundamental_div_mod;
use vstd::arithmetic::power2::{lemma2_to64, lemma2_to64_rest, pow2};
use vstd::prelude::*;

verus! {

/// One concrete operand.
#[derive(Clone, Debug)]
pub enum RuntimeValue {
    Bool(bool),
    U8(u8),
    U16(u16),
    U32(u32),
    U64(u64),
    U128(u128),
    U256(U256),
    Other,
}

impl RuntimeValue {
    /// Whether the value is a scalar the tracer can read.
    pub open spec fn is_primitive(self) -> bool {
        match self {
            RuntimeValue::Other => false,
            RuntimeValue::U256(u) => u.wf(),
            _ => true,
        }
    }

    /// The scalar's numeric value; booleans count as 0 or 1.
    pub open spec fn as_nat(self) -> nat {
        match self {
            RuntimeValue::Bool(b) => if b {
                1nat
            } else {
                0nat
            },
            RuntimeValue::U8(u) => u as nat,
            RuntimeValue::U16(u) => u as nat,
            RuntimeValue::U32(u) => u as nat,
            RuntimeValue::U64(u) => u as nat,
            RuntimeValue::U128(u) => u as nat,
            RuntimeValue::U256(u) => u.value(),
            RuntimeValue::Other => 0,
        }
    }

    /// The scalar's width in bits.
    pub open spec fn width(self) -> nat {
        match self {
            RuntimeValue::Bool(_) => 1,
            RuntimeValue::U8(_) => 8,
            RuntimeValue::U16(_) => 16,
            RuntimeValue::U32(_) => 32,
            RuntimeValue::U64(_) => 64,
            RuntimeValue::U128(_) => 128,
            RuntimeValue::U256(_) => 256,
            RuntimeValue::Other => 0,
        }
    }
}

/// The width in bits of a scalar value.
pub fn value_bitwidth(v: &RuntimeValue) -> (r: u32)
    requires
        v.is_primitive(),
    ensures
        r == v.width(),
{
    match v {
        RuntimeValue::Bool(_) => 1,
        RuntimeValue::U8(_) => 8,
        RuntimeValue::U16(_) => 16,
        RuntimeValue::U32(_) => 32,
        RuntimeValue::U64(_) => 64,
        RuntimeValue::U128(_) => 128,
        RuntimeValue::U256(_) => 256,
        RuntimeValue::Other => 0,
    }
}

/// Widen a scalar to 256 bits.
pub fn value_to_u256(v: &RuntimeValue) -> (r: U256)
    requires
        v.is_primitive(),
    ensures
        r.wf(),
        r.value() == v.as_nat(),
{
    match v {
        RuntimeValue::Bool(b) => U256::from_u64(if *b {
            1
        } else {
            0
        }),
        RuntimeValue::U8(u) => U256::from_u64(*u as u64),
        RuntimeValue::U16(u) => U256::from_u64(*u as u64),
        RuntimeValue::U32(u) => U256::from_u64(*u as u64),
        RuntimeValue::U64(u) => U256::from_u64(*u),
        RuntimeValue::U128(u) => {
            let lo: u64 = (*u % 0x10000000000000000u128) as u64;
            let hi: u64 = (*u / 0x10000000000000000u128) as u64;
            proof {
                lemma2_to64_rest();
                lemma_fundamental_div_mod(*u as int, 0x10000000000000000);
                assert(pow2(64) == 0x10000000000000000);
                vstd::arithmetic::power2::lemma_pow2_adds(64, 64);
                assert(pow2(128) == 0x10000000000000000nat * 0x10000000000000000nat);
                assert(0x10000000000000000nat * 0x10000000000000000nat
                    == 0x100000000000000000000000000000000nat) by (nonlinear_arith);
                assert(*u / 0x10000000000000000u128 < 0x10000000000000000u128);
            }
            let r = U256::from_u64_words(lo, hi, 0, 0);
            proof {
                assert(pow2(128) * 0 == 0) by (nonlinear_arith);
                assert(pow2(192) * 0 == 0) by (nonlinear_arith);
            }
            r
        },
        RuntimeValue::U256(u) => u.clone(),
        RuntimeValue::Other => U256::zero(),
    }
}

/// The low 32 bits of a scalar, as a shift amount.
pub fn value_low_u32(v: &RuntimeValue) -> (r: u32)
    requires
        v.is_primitive(),
    ensures
        r == v.as_nat() % 0x100000000,
{
    match v {
        RuntimeValue::Bool(b) => if *b {
            1
        } else {
            0
        },
        RuntimeValue::U8(u) => *u as u32,
        RuntimeValue::U16(u) => *u as u32,
        RuntimeValue::U32(u) => *u,
        RuntimeValue::U64(u) => (*u % 0x100000000u64) as u32,
        RuntimeValue::U128(u) => (*u % 0x100000000u128) as u32,
        RuntimeValue::U256(u) => {
            let t = u.truncate(32);
            proof {
                vstd::arithmetic::power2::lemma2_to64();
                vstd::arithmetic::power2::lemma2_to64_rest();
                assert(pow2(32) == 0x100000000);
                vstd::arithmetic::power2::lemma_pow2_strictly_increases(32, 64);
            }
            t.to_u64() as u32
        },
        RuntimeValue::Other => 0,
    }
}

/// Whether the value is a concrete boolean, and which one.
pub fn value_is_bool(v: &RuntimeValue) -> (r: Option<bool>)
    ensures
        r == (match *v {
            RuntimeValue::Bool(b) => Some(b),
            _ => None::<bool>,
        }),
{
    match v {
        RuntimeValue::Bool(b) => Some(*b),
        _ => None,
    }
}

/// Compare two scalars of the same width by value.
pub fn compare_value(v1: &RuntimeValue, v2: &RuntimeValue) -> (r: Order)
    requires
        v1.is_primitive(),
        v2.is_primitive(),
        v1.width() == v2.width(),
    ensures
        r == Order::Less <==> v1.as_nat() < v2.as_nat(),
        r == Order::Equal <==> v1.as_nat() == v2.as_nat(),
        r == Order::Greater <==> v1.as_nat() > v2.as_nat(),
{
    let a = value_to_u256(v1);
    let b = value_to_u256(v2);
    a.cmp(&b)
}

} // verus!
