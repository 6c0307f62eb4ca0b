//! Byte encodings of plain argument values.
//!
//! Call arguments travel as canonically serialized bytes: unsigned integers
//! little-endian at their full width, booleans as one byte, sequences with
//! a ULEB128 length prefix.  The serializer and deserializer are an outside
//! crate; each call stands behind a trusted wrapper whose contract states
//! the exact bytes, and the spec functions here say what those bytes are.

use vstd::prelude::*;

verus! {

/// The little-endian bytes of a value, `k` bytes wide.
pub open spec fn le_bytes(v: nat, k: nat) -> Seq<u8>
    decreases k,
{
    if k == 0 {
        Seq::empty()
    } else {
        seq![(v % 256) as u8] + le_bytes(v / 256, (k - 1) as nat)
    }
}

/// Relies on `bcs::to_bytes::<bool>`: one byte, 1 for true and 0 for false.
#[verifier::external_body]
pub fn bcs_bytes_bool(v: bool) -> (r: Vec<u8>)
    ensures
        r@ == seq![
            if v {
                1u8
            } else {
                0u8
            },
        ],
{
    bcs::to_bytes(&v).unwrap()
}

/// Relies on `bcs::to_bytes::<u8>`: the byte itself.
#[verifier::external_body]
pub fn bcs_bytes_u8(v: u8) -> (r: Vec<u8>)
    ensures
        r@ == le_bytes(v as nat, 1),
{
    bcs::to_bytes(&v).unwrap()
}

/// Relies on `bcs::to_bytes::<u16>`: two little-endian bytes.
#[verifier::external_body]
pub fn bcs_bytes_u16(v: u16) -> (r: Vec<u8>)
    ensures
        r@ == le_bytes(v as nat, 2),
{
    bcs::to_bytes(&v).unwrap()
}

/// Relies on `bcs::to_bytes::<u32>`: four little-endian bytes.
#[verifier::external_body]
pub fn bcs_bytes_u32(v: u32) -> (r: Vec<u8>)
    ensures
        r@ == le_bytes(v as nat, 4),
{
    bcs::to_bytes(&v).unwrap()
}

/// Relies on `bcs::to_bytes::<u64>`: eight little-endian bytes.
#[verifier::external_body]
pub fn bcs_bytes_u64(v: u64) -> (r: Vec<u8>)
    ensures
        r@ == le_bytes(v as nat, 8),
{
    bcs::to_bytes(&v).unwrap()
}

/// Relies on `bcs::to_bytes::<u128>`: sixteen little-endian bytes.
#[verifier::external_body]
pub fn bcs_bytes_u128(v: u128) -> (r: Vec<u8>)
    ensures
        r@ == le_bytes(v as nat, 16),
{
    bcs::to_bytes(&v).unwrap()
}

/// Relies on `bcs::to_bytes::<Vec<u8>>` on the empty vector: the ULEB128
/// length prefix 0 and nothing else.  Every empty sequence serializes to
/// this one byte whatever its element type.
#[verifier::external_body]
pub fn bcs_bytes_empty_list() -> (r: Vec<u8>)
    ensures
        r@ == seq![0u8],
{
    let empty: Vec<u8> = Vec::new();
    bcs::to_bytes(&empty).unwrap()
}

/// Relies on `bcs::from_bytes::<bool>`: exactly one byte holding 0 or 1,
/// trailing bytes refused.
#[verifier::external_body]
pub fn bcs_parse_bool(bytes: &Vec<u8>) -> (r: Option<bool>)
    ensures
        r == Some(true) <==> bytes@ == seq![1u8],
        r == Some(false) <==> bytes@ == seq![0u8],
{
    bcs::from_bytes::<bool>(bytes.as_slice()).ok()
}

/// Relies on `bcs::from_bytes::<u8>`: exactly one byte, trailing bytes
/// refused.
#[verifier::external_body]
pub fn bcs_parse_u8(bytes: &Vec<u8>) -> (r: Option<u8>)
    ensures
        forall|v: u8| r == Some(v) <==> bytes@ == le_bytes(v as nat, 1),
{
    bcs::from_bytes::<u8>(bytes.as_slice()).ok()
}

/// Relies on `bcs::from_bytes::<u16>`: exactly two little-endian bytes.
#[verifier::external_body]
pub fn bcs_parse_u16(bytes: &Vec<u8>) -> (r: Option<u16>)
    ensures
        forall|v: u16| r == Some(v) <==> bytes@ == le_bytes(v as nat, 2),
{
    bcs::from_bytes::<u16>(bytes.as_slice()).ok()
}

/// Relies on `bcs::from_bytes::<u32>`: exactly four little-endian bytes.
#[verifier::external_body]
pub fn bcs_parse_u32(bytes: &Vec<u8>) -> (r: Option<u32>)
    ensures
        forall|v: u32| r == Some(v) <==> bytes@ == le_bytes(v as nat, 4),
{
    bcs::from_bytes::<u32>(bytes.as_slice()).ok()
}

/// Relies on `bcs::from_bytes::<u64>`: exactly eight little-endian bytes.
#[verifier::external_body]
pub fn bcs_parse_u64(bytes: &Vec<u8>) -> (r: Option<u64>)
    ensures
        forall|v: u64| r == Some(v) <==> bytes@ == le_bytes(v as nat, 8),
{
    bcs::from_bytes::<u64>(bytes.as_slice()).ok()
}

/// Relies on `bcs::from_bytes::<u128>`: exactly sixteen little-endian
/// bytes.
#[verifier::external_body]
pub fn bcs_parse_u128(bytes: &Vec<u8>) -> (r: Option<u128>)
    ensures
        forall|v: u128| r == Some(v) <==> bytes@ == le_bytes(v as nat, 16),
{
    bcs::from_bytes::<u128>(bytes.as_slice()).ok()
}

/// The value of little-endian bytes.
pub open spec fn le_val(s: Seq<u8>) -> nat
    decreases s.len(),
{
    if s.len() == 0 {
        0
    } else {
        (s[0] + 256 * le_val(s.drop_first())) as nat
    }
}

/// The encoding is as wide as asked.
pub proof fn lemma_le_bytes_len(v: nat, k: nat)
    ensures
        le_bytes(v, k).len() == k,
    decreases k,
{
    if k > 0 {
        lemma_le_bytes_len(v / 256, (k - 1) as nat);
    }
}

/// Reading back the little-endian bytes of an in-range value gives the
/// value.
pub proof fn lemma_le_val_of_le_bytes(v: nat, k: nat)
    ensures
        le_val(le_bytes(v, k)) as int == v as int % (vstd::arithmetic::power::pow(256, k) as int),
    decreases k,
{
    vstd::arithmetic::power::lemma_pow_positive(256, k);
    if k == 0 {
        assert(vstd::arithmetic::power::pow(256, 0) == 1) by {
            vstd::arithmetic::power::lemma_pow0(256);
        }
        assert(v % 1 == 0);
    } else {
        lemma_le_val_of_le_bytes(v / 256, (k - 1) as nat);
        let s = le_bytes(v, k);
        assert(s == seq![(v % 256) as u8] + le_bytes(v / 256, (k - 1) as nat));
        assert(s[0] == (v % 256) as u8);
        assert(s.drop_first() =~= le_bytes(v / 256, (k - 1) as nat));
        vstd::arithmetic::power::lemma_pow1(256);
        assert(vstd::arithmetic::power::pow(256, k) == 256 * vstd::arithmetic::power::pow(
            256,
            (k - 1) as nat,
        )) by {
            vstd::arithmetic::power::lemma_pow_adds(256, 1, (k - 1) as nat);
            vstd::arithmetic::power::lemma_pow1(256);
        }
        vstd::arithmetic::power::lemma_pow_positive(256, (k - 1) as nat);
        vstd::arithmetic::div_mod::lemma_mod_breakdown(
            v as int,
            256,
            vstd::arithmetic::power::pow(256, (k - 1) as nat) as int,
        );
    }
}

/// A byte sequence is the little-endian encoding of its own value.
pub proof fn lemma_le_bytes_of_le_val(s: Seq<u8>)
    ensures
        le_bytes(le_val(s), s.len()) =~= s,
        le_val(s) < vstd::arithmetic::power::pow(256, s.len()),
    decreases s.len(),
{
    vstd::arithmetic::power::lemma_pow_positive(256, s.len());
    if s.len() > 0 {
        lemma_le_bytes_of_le_val(s.drop_first());
        let v: nat = le_val(s);
        assert(v == s[0] + 256 * le_val(s.drop_first()));
        assert(v % 256 == s[0] && v / 256 == le_val(s.drop_first())) by {
            vstd::arithmetic::div_mod::lemma_fundamental_div_mod_converse(
                v as int,
                256,
                le_val(s.drop_first()) as int,
                s[0] as int,
            );
        }
        assert(le_bytes(v, s.len()) == seq![(v % 256) as u8] + le_bytes(
            v / 256,
            (s.len() - 1) as nat,
        ));
        assert(vstd::arithmetic::power::pow(256, s.len()) == 256
            * vstd::arithmetic::power::pow(256, (s.len() - 1) as nat)) by {
            vstd::arithmetic::power::lemma_pow_adds(256, 1, (s.len() - 1) as nat);
            vstd::arithmetic::power::lemma_pow1(256);
        }
        assert(le_val(s.drop_first()) < vstd::arithmetic::power::pow(
            256,
            (s.len() - 1) as nat,
        ));
        assert(v < 256 * vstd::arithmetic::power::pow(256, (s.len() - 1) as nat)) by (
        nonlinear_arith)
            requires
                v == s[0] + 256 * le_val(s.drop_first()),
                s[0] < 256,
                le_val(s.drop_first()) < vstd::arithmetic::power::pow(
                    256,
                    (s.len() - 1) as nat,
                ),
        ;
    }
}

} // verus!
