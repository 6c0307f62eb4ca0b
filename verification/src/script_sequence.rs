//! Multi-call script sequences and their arguments.
//!
//! A candidate transaction can be one compiled script built from several
//! calls.  The compiled payload is opaque bytes, so the logical sequence is
//! kept beside it: each call names a module and function and carries its
//! arguments, and a `PreviousResult` argument wires one call's return value
//! into a later call — the only data dependency inside a sequence.

use crate::codec::{
    bcs_parse_bool, bcs_parse_u128, bcs_parse_u16, bcs_parse_u32, bcs_parse_u64, bcs_parse_u8,
    le_bytes, le_val, lemma_le_bytes_len, lemma_le_bytes_of_le_val, lemma_le_val_of_le_bytes,
};
use crate::u256::{lemma_pow256_pow2, U256};
use vstd::prelude::*;

verus! {

/// The reading of a module reference.
pub struct ModuleRefV {
    pub addr: Seq<u8>,
    pub name: Seq<char>,
}

/// The reading of a runtime type.
pub enum MoveTypeV {
    Bool,
    U8,
    U16,
    U32,
    U64,
    U128,
    U256,
    Address,
    Signer,
    Vector(Box<MoveTypeV>),
    Struct(Box<StructTagV>),
}

/// The reading of a struct type tag.
pub struct StructTagV {
    pub addr: Seq<u8>,
    pub module: Seq<char>,
    pub name: Seq<char>,
    pub args: Seq<MoveTypeV>,
}

/// A reference to a deployed module: its account address and name.
#[derive(Debug)]
pub struct ModuleRef {
    pub address: Vec<u8>,
    pub name: String,
}

impl ModuleRef {
    /// The reading of this reference.
    pub open spec fn view_spec(self) -> ModuleRefV {
        ModuleRefV { addr: self.address@, name: self.name@ }
    }
}

impl Clone for ModuleRef {
    /// A clone reads the same.
    fn clone(&self) -> (r: Self)
        ensures
            r.view_spec() == self.view_spec(),
    {
        ModuleRef { address: clone_bytes(&self.address), name: self.name.clone() }
    }
}

/// Copy a byte vector.
pub fn clone_bytes(v: &Vec<u8>) -> (r: Vec<u8>)
    ensures
        r@ == v@,
{
    let mut out: Vec<u8> = Vec::new();
    let mut i: usize = 0;
    while i < v.len()
        invariant
            i <= v@.len(),
            out@ =~= v@.take(i as int),
        decreases v@.len() - i,
    {
        out.push(v[i]);
        i = i + 1;
    }
    proof {
        assert(out@ =~= v@);
    }
    out
}

/// Whether two byte vectors hold the same bytes.
pub fn bytes_eq(a: &Vec<u8>, b: &Vec<u8>) -> (r: bool)
    ensures
        r == (a@ == b@),
{
    if a.len() != b.len() {
        return false;
    }
    let mut i: usize = 0;
    while i < a.len()
        invariant
            a@.len() == b@.len(),
            i <= a@.len(),
            forall|j: int| 0 <= j < i ==> a@[j] == b@[j],
        decreases a@.len() - i,
    {
        if a[i] != b[i] {
            return false;
        }
        i = i + 1;
    }
    proof {
        assert(a@ =~= b@);
    }
    true
}

/// Whether two module references read the same.
pub fn module_ref_eq(a: &ModuleRef, b: &ModuleRef) -> (r: bool)
    ensures
        r == (a.view_spec() == b.view_spec()),
{
    let same = bytes_eq(&a.address, &b.address) && a.name.eq(&b.name);
    proof {
        if same {
            assert(a.view_spec() == b.view_spec());
        }
    }
    same
}

/// A list of type arguments.
#[derive(Debug)]
pub enum TypeList {
    Nil,
    Cons(Box<MoveType>, Box<TypeList>),
}

/// A runtime type as call signatures carry it.
#[derive(Debug)]
pub enum MoveType {
    Bool,
    U8,
    U16,
    U32,
    U64,
    U128,
    U256,
    Address,
    Signer,
    Vector(Box<MoveType>),
    Struct(Box<StructTag>),
}

/// A struct type tag.
#[derive(Debug)]
pub struct StructTag {
    pub address: Vec<u8>,
    pub module: String,
    pub name: String,
    pub type_args: TypeList,
}

/// The reading of a runtime type.
pub open spec fn mt_view(t: MoveType) -> MoveTypeV
    decreases t,
{
    match t {
        MoveType::Bool => MoveTypeV::Bool,
        MoveType::U8 => MoveTypeV::U8,
        MoveType::U16 => MoveTypeV::U16,
        MoveType::U32 => MoveTypeV::U32,
        MoveType::U64 => MoveTypeV::U64,
        MoveType::U128 => MoveTypeV::U128,
        MoveType::U256 => MoveTypeV::U256,
        MoveType::Address => MoveTypeV::Address,
        MoveType::Signer => MoveTypeV::Signer,
        MoveType::Vector(inner) => MoveTypeV::Vector(Box::new(mt_view(*inner))),
        MoveType::Struct(st) => MoveTypeV::Struct(Box::new(st_view(*st))),
    }
}

/// The reading of a type list.
pub open spec fn tl_view(l: TypeList) -> Seq<MoveTypeV>
    decreases l,
{
    match l {
        TypeList::Nil => Seq::empty(),
        TypeList::Cons(h, t) => seq![mt_view(*h)] + tl_view(*t),
    }
}

/// The reading of a struct tag.
pub open spec fn st_view(s: StructTag) -> StructTagV
    decreases s,
{
    StructTagV {
        addr: s.address@,
        module: s.module@,
        name: s.name@,
        args: tl_view(s.type_args),
    }
}

impl Clone for MoveType {
    /// A clone reads the same.
    fn clone(&self) -> (r: Self)
        ensures
            mt_view(r) == mt_view(*self),
        decreases *self,
    {
        match self {
            MoveType::Bool => MoveType::Bool,
            MoveType::U8 => MoveType::U8,
            MoveType::U16 => MoveType::U16,
            MoveType::U32 => MoveType::U32,
            MoveType::U64 => MoveType::U64,
            MoveType::U128 => MoveType::U128,
            MoveType::U256 => MoveType::U256,
            MoveType::Address => MoveType::Address,
            MoveType::Signer => MoveType::Signer,
            MoveType::Vector(inner) => MoveType::Vector(Box::new((**inner).clone())),
            MoveType::Struct(st) => MoveType::Struct(Box::new((**st).clone())),
        }
    }
}

impl Clone for TypeList {
    /// A clone reads the same.
    fn clone(&self) -> (r: Self)
        ensures
            tl_view(r) == tl_view(*self),
        decreases *self,
    {
        match self {
            TypeList::Nil => TypeList::Nil,
            TypeList::Cons(h, t) => TypeList::Cons(
                Box::new((**h).clone()),
                Box::new((**t).clone()),
            ),
        }
    }
}

impl Clone for StructTag {
    /// A clone reads the same.
    fn clone(&self) -> (r: Self)
        ensures
            st_view(r) == st_view(*self),
        decreases *self,
    {
        StructTag {
            address: clone_bytes(&self.address),
            module: self.module.clone(),
            name: self.name.clone(),
            type_args: self.type_args.clone(),
        }
    }
}

/// Whether two types read the same.
pub fn mt_eq(a: &MoveType, b: &MoveType) -> (r: bool)
    ensures
        r == (mt_view(*a) == mt_view(*b)),
    decreases *a,
{
    match (a, b) {
        (MoveType::Bool, MoveType::Bool) => true,
        (MoveType::U8, MoveType::U8) => true,
        (MoveType::U16, MoveType::U16) => true,
        (MoveType::U32, MoveType::U32) => true,
        (MoveType::U64, MoveType::U64) => true,
        (MoveType::U128, MoveType::U128) => true,
        (MoveType::U256, MoveType::U256) => true,
        (MoveType::Address, MoveType::Address) => true,
        (MoveType::Signer, MoveType::Signer) => true,
        (MoveType::Vector(x), MoveType::Vector(y)) => mt_eq(&**x, &**y),
        (MoveType::Struct(x), MoveType::Struct(y)) => st_eq(&**x, &**y),
        _ => false,
    }
}

/// Whether two type lists read the same.
pub fn tl_eq(a: &TypeList, b: &TypeList) -> (r: bool)
    ensures
        r == (tl_view(*a) == tl_view(*b)),
    decreases *a,
{
    match (a, b) {
        (TypeList::Nil, TypeList::Nil) => true,
        (TypeList::Cons(x, xs), TypeList::Cons(y, ys)) => {
            let hd = mt_eq(&**x, &**y);
            if !hd {
                proof {
                    assert(tl_view(*a)[0] == mt_view(**x));
                    assert(tl_view(*b)[0] == mt_view(**y));
                }
                false
            } else {
                let tl = tl_eq(&**xs, &**ys);
                proof {
                    if tl {
                        assert(tl_view(*a) =~= tl_view(*b));
                    } else {
                        if tl_view(*a) == tl_view(*b) {
                            assert(tl_view(*a).drop_first() =~= tl_view(**xs));
                            assert(tl_view(*b).drop_first() =~= tl_view(**ys));
                        }
                    }
                }
                tl
            }
        },
        (TypeList::Nil, TypeList::Cons(y, ys)) => {
            proof {
                assert(tl_view(*b).len() > 0);
            }
            false
        },
        (TypeList::Cons(x, xs), TypeList::Nil) => {
            proof {
                assert(tl_view(*a).len() > 0);
            }
            false
        },
    }
}

/// Whether two struct tags read the same.
pub fn st_eq(a: &StructTag, b: &StructTag) -> (r: bool)
    ensures
        r == (st_view(*a) == st_view(*b)),
    decreases *a,
{
    let r = bytes_eq(&a.address, &b.address) && a.module.eq(&b.module) && a.name.eq(&b.name)
        && tl_eq(&a.type_args, &b.type_args);
    proof {
        if r {
            assert(st_view(*a) == st_view(*b));
        }
    }
    r
}

/// The reading of a transaction argument.
pub enum TransactionArgumentV {
    U8(u8),
    U16(u16),
    U32(u32),
    U64(u64),
    U128(u128),
    U256(nat),
    Bool(bool),
    Address(Seq<u8>),
    U8Vector(Seq<u8>),
    Serialized(Seq<u8>),
}

/// One script argument value.
#[derive(Debug)]
pub enum TransactionArgument {
    U8(u8),
    U16(u16),
    U32(u32),
    U64(u64),
    U128(u128),
    U256(U256),
    Bool(bool),
    Address(Vec<u8>),
    U8Vector(Vec<u8>),
    Serialized(Vec<u8>),
}

/// A value's 256-bit payload, if any, is well formed.
pub open spec fn ta_wf(a: TransactionArgument) -> bool {
    match a {
        TransactionArgument::U256(u) => u.wf(),
        _ => true,
    }
}

/// The reading of a transaction argument.
pub open spec fn ta_view(a: TransactionArgument) -> TransactionArgumentV {
    match a {
        TransactionArgument::U8(v) => TransactionArgumentV::U8(v),
        TransactionArgument::U16(v) => TransactionArgumentV::U16(v),
        TransactionArgument::U32(v) => TransactionArgumentV::U32(v),
        TransactionArgument::U64(v) => TransactionArgumentV::U64(v),
        TransactionArgument::U128(v) => TransactionArgumentV::U128(v),
        TransactionArgument::U256(v) => TransactionArgumentV::U256(v.value()),
        TransactionArgument::Bool(v) => TransactionArgumentV::Bool(v),
        TransactionArgument::Address(v) => TransactionArgumentV::Address(v@),
        TransactionArgument::U8Vector(v) => TransactionArgumentV::U8Vector(v@),
        TransactionArgument::Serialized(v) => TransactionArgumentV::Serialized(v@),
    }
}

impl Clone for TransactionArgument {
    /// A clone reads the same.
    fn clone(&self) -> (r: Self)
        ensures
            ta_view(r) == ta_view(*self),
            ta_wf(r) == ta_wf(*self),
    {
        match self {
            TransactionArgument::U8(v) => TransactionArgument::U8(*v),
            TransactionArgument::U16(v) => TransactionArgument::U16(*v),
            TransactionArgument::U32(v) => TransactionArgument::U32(*v),
            TransactionArgument::U64(v) => TransactionArgument::U64(*v),
            TransactionArgument::U128(v) => TransactionArgument::U128(*v),
            TransactionArgument::U256(v) => TransactionArgument::U256(v.clone()),
            TransactionArgument::Bool(v) => TransactionArgument::Bool(*v),
            TransactionArgument::Address(v) => TransactionArgument::Address(clone_bytes(v)),
            TransactionArgument::U8Vector(v) => TransactionArgument::U8Vector(clone_bytes(v)),
            TransactionArgument::Serialized(v) => TransactionArgument::Serialized(clone_bytes(v)),
        }
    }
}

/// The reading of a sequence argument.
pub enum SequenceArgumentV {
    Signer(u16),
    Raw(Seq<u8>, MoveTypeV),
    PreviousResult(u16, u16),
}

/// One argument of one call in a sequence: a signer slot, raw encoded
/// bytes, or the wired result of an earlier call.
#[derive(Debug)]
pub enum SequenceArgument {
    Signer(u16),
    Raw { bytes: Vec<u8>, ty: MoveType },
    PreviousResult { call_idx: u16, return_idx: u16 },
}

/// The reading of a sequence argument.
pub open spec fn sa_view(a: SequenceArgument) -> SequenceArgumentV {
    match a {
        SequenceArgument::Signer(i) => SequenceArgumentV::Signer(i),
        SequenceArgument::Raw { bytes, ty } => SequenceArgumentV::Raw(bytes@, mt_view(ty)),
        SequenceArgument::PreviousResult { call_idx, return_idx } =>
            SequenceArgumentV::PreviousResult(call_idx, return_idx),
    }
}

impl Clone for SequenceArgument {
    /// A clone reads the same.
    fn clone(&self) -> (r: Self)
        ensures
            sa_view(r) == sa_view(*self),
    {
        match self {
            SequenceArgument::Signer(i) => SequenceArgument::Signer(*i),
            SequenceArgument::Raw { bytes, ty } => SequenceArgument::Raw {
                bytes: clone_bytes(bytes),
                ty: ty.clone(),
            },
            SequenceArgument::PreviousResult { call_idx, return_idx } =>
                SequenceArgument::PreviousResult {
                call_idx: *call_idx,
                return_idx: *return_idx,
            },
        }
    }
}

/// The reading of one call.
pub struct SequenceCallV {
    pub module: ModuleRefV,
    pub function: Seq<char>,
    pub ty_args: Seq<MoveTypeV>,
    pub args: Seq<SequenceArgumentV>,
}

/// One call of a sequence.
#[derive(Debug)]
pub struct SequenceCall {
    pub module: ModuleRef,
    pub function: String,
    pub ty_args: TypeList,
    pub args: Vec<SequenceArgument>,
}

/// The reading of one call.
pub open spec fn sc_view(c: SequenceCall) -> SequenceCallV {
    SequenceCallV {
        module: c.module.view_spec(),
        function: c.function@,
        ty_args: tl_view(c.ty_args),
        args: Seq::new(c.args@.len(), |i: int| sa_view(c.args@[i])),
    }
}

impl SequenceCall {
    /// Assemble a call.
    pub fn new(module: ModuleRef, function: String, ty_args: TypeList, args: Vec<
        SequenceArgument,
    >) -> (r: SequenceCall)
        ensures
            sc_view(r).module == module.view_spec(),
            sc_view(r).function == function@,
            sc_view(r).ty_args == tl_view(ty_args),
            sc_view(r).args.len() == args@.len(),
            forall|i: int| 0 <= i < args@.len() ==> sc_view(r).args[i] == sa_view(args@[i]),
    {
        SequenceCall { module, function, ty_args, args }
    }

    /// The called module.
    pub fn module(&self) -> (r: &ModuleRef)
        ensures
            r.view_spec() == sc_view(*self).module,
    {
        &self.module
    }

    /// The called function.
    pub fn function(&self) -> (r: &String)
        ensures
            r@ == sc_view(*self).function,
    {
        &self.function
    }

    /// The call's type arguments.
    pub fn ty_args(&self) -> (r: &TypeList)
        ensures
            tl_view(*r) == sc_view(*self).ty_args,
    {
        &self.ty_args
    }

    /// The call's arguments.
    pub fn args(&self) -> (r: &Vec<SequenceArgument>)
        ensures
            r@.len() == sc_view(*self).args.len(),
            forall|i: int| 0 <= i < r@.len() ==> sa_view(r@[i]) == sc_view(*self).args[i],
    {
        &self.args
    }
}

impl Clone for SequenceCall {
    /// A clone reads the same.
    fn clone(&self) -> (r: Self)
        ensures
            sc_view(r) == sc_view(*self),
    {
        let mut args: Vec<SequenceArgument> = Vec::new();
        let mut i: usize = 0;
        while i < self.args.len()
            invariant
                i <= self.args@.len(),
                args@.len() == i,
                forall|j: int| 0 <= j < i ==> sa_view(#[trigger] args@[j]) == sa_view(
                    self.args@[j],
                ),
            decreases self.args@.len() - i,
        {
            args.push(self.args[i].clone());
            i = i + 1;
        }
        let r = SequenceCall {
            module: self.module.clone(),
            function: self.function.clone(),
            ty_args: self.ty_args.clone(),
            args,
        };
        proof {
            assert(sc_view(r).args =~= sc_view(*self).args);
            assert(sc_view(r) == sc_view(*self)) by {
                assert(sc_view(r).module == sc_view(*self).module);
            }
        }
        r
    }
}

/// The logical form of one multi-call script.
#[derive(Debug)]
pub struct ScriptSequence {
    pub calls: Vec<SequenceCall>,
}

/// The reading of a sequence.
pub open spec fn ss_view(s: ScriptSequence) -> Seq<SequenceCallV> {
    Seq::new(s.calls@.len(), |i: int| sc_view(s.calls@[i]))
}

impl ScriptSequence {
    /// The empty sequence.
    pub fn new() -> (r: ScriptSequence)
        ensures
            ss_view(r).len() == 0,
    {
        ScriptSequence { calls: Vec::new() }
    }

    /// The calls, oldest first.
    pub fn calls(&self) -> (r: &Vec<SequenceCall>)
        ensures
            r@.len() == ss_view(*self).len(),
            forall|i: int| 0 <= i < r@.len() ==> sc_view(r@[i]) == ss_view(*self)[i],
    {
        &self.calls
    }

    /// Append one call.
    pub fn push_call(&mut self, call: SequenceCall)
        ensures
            ss_view(*final(self)) =~= ss_view(*old(self)).push(sc_view(call)),
    {
        self.calls.push(call);
        proof {
            assert(ss_view(*self) =~= ss_view(*old(self)).push(sc_view(call)));
        }
    }

    /// How many calls the sequence holds.
    pub fn len(&self) -> (r: usize)
        ensures
            r == ss_view(*self).len(),
    {
        self.calls.len()
    }

    /// Whether the sequence holds no call.
    pub fn is_empty(&self) -> (r: bool)
        ensures
            r == (ss_view(*self).len() == 0),
    {
        self.calls.len() == 0
    }
}

impl Clone for ScriptSequence {
    /// A clone reads the same.
    fn clone(&self) -> (r: Self)
        ensures
            ss_view(r) == ss_view(*self),
    {
        let mut calls: Vec<SequenceCall> = Vec::new();
        let mut i: usize = 0;
        while i < self.calls.len()
            invariant
                i <= self.calls@.len(),
                calls@.len() == i,
                forall|j: int| 0 <= j < i ==> sc_view(#[trigger] calls@[j]) == sc_view(
                    self.calls@[j],
                ),
            decreases self.calls@.len() - i,
        {
            calls.push(self.calls[i].clone());
            i = i + 1;
        }
        let r = ScriptSequence { calls };
        proof {
            assert(ss_view(r) =~= ss_view(*self));
        }
        r
    }
}

/// What decoding raw bytes at a type yields: scalars read back from their
/// canonical encodings, byte vectors from a length-prefixed body, and
/// anything else carried through as opaque serialized bytes.
pub open spec fn bta_spec(ty: MoveTypeV, bytes: Seq<u8>) -> Option<TransactionArgumentV> {
    match ty {
        MoveTypeV::Bool => if bytes == seq![1u8] {
            Some(TransactionArgumentV::Bool(true))
        } else if bytes == seq![0u8] {
            Some(TransactionArgumentV::Bool(false))
        } else {
            None
        },
        MoveTypeV::U8 => if bytes.len() == 1 {
            Some(TransactionArgumentV::U8(le_val(bytes) as u8))
        } else {
            None
        },
        MoveTypeV::U16 => if bytes.len() == 2 {
            Some(TransactionArgumentV::U16(le_val(bytes) as u16))
        } else {
            None
        },
        MoveTypeV::U32 => if bytes.len() == 4 {
            Some(TransactionArgumentV::U32(le_val(bytes) as u32))
        } else {
            None
        },
        MoveTypeV::U64 => if bytes.len() == 8 {
            Some(TransactionArgumentV::U64(le_val(bytes) as u64))
        } else {
            None
        },
        MoveTypeV::U128 => if bytes.len() == 16 {
            Some(TransactionArgumentV::U128(le_val(bytes) as u128))
        } else {
            None
        },
        MoveTypeV::U256 => if bytes.len() == 32 {
            Some(TransactionArgumentV::U256(le_val(bytes)))
        } else {
            None
        },
        MoveTypeV::Address => if bytes.len() == 32 {
            Some(TransactionArgumentV::Address(bytes))
        } else {
            None
        },
        MoveTypeV::Vector(inner) => if *inner == MoveTypeV::U8 {
            if bytes.len() >= 1 && bytes[0] < 128 && bytes.len() == 1 + bytes[0] {
                Some(TransactionArgumentV::U8Vector(bytes.skip(1)))
            } else {
                None
            }
        } else {
            Some(TransactionArgumentV::Serialized(bytes))
        },
        _ => Some(TransactionArgumentV::Serialized(bytes)),
    }
}


/// Decode one raw argument at its declared type.
///
/// Scalars come back from their canonical little-endian encodings, byte
/// vectors from a short length-prefixed body; other types stay opaque.
pub fn bytes_to_transaction_argument(ty: &MoveType, bytes: &Vec<u8>) -> (r: Option<
    TransactionArgument,
>)
    ensures
        (match r {
            Some(v) => bta_spec(mt_view(*ty), bytes@) == Some(ta_view(v)),
            None => bta_spec(mt_view(*ty), bytes@) is None,
        }),
{
    match ty {
        MoveType::Bool => {
            let b = bcs_parse_bool(bytes);
            match b {
                Some(v) => Some(TransactionArgument::Bool(v)),
                None => None,
            }
        },
        MoveType::U8 => {
            let v = bcs_parse_u8(bytes);
            proof {
                lemma_pow256_pow2(1);
                vstd::arithmetic::power2::lemma2_to64();
                
                if bytes@.len() == 1 {
                    let lv = le_val(bytes@);
                    lemma_le_bytes_of_le_val(bytes@);
                    assert(lv < vstd::arithmetic::power2::pow2(8));
                    assert((lv as u8) as nat == lv);
                    assert(bytes@ == le_bytes((lv as u8) as nat, 1));
                }
                if v is Some {
                    lemma_le_bytes_len(v->0 as nat, 1);
                    assert(bytes@.len() == 1);
                    lemma_le_val_of_le_bytes(v->0 as nat, 1);
                    vstd::arithmetic::div_mod::lemma_small_mod(
                        v->0 as nat,
                        vstd::arithmetic::power2::pow2(8),
                    );
                }
            }
            match v {
                Some(x) => Some(TransactionArgument::U8(x)),
                None => None,
            }
        },
        MoveType::U16 => {
            let v = bcs_parse_u16(bytes);
            proof {
                lemma_pow256_pow2(2);
                vstd::arithmetic::power2::lemma2_to64();
                
                if bytes@.len() == 2 {
                    let lv = le_val(bytes@);
                    lemma_le_bytes_of_le_val(bytes@);
                    assert(lv < vstd::arithmetic::power2::pow2(16));
                    assert((lv as u16) as nat == lv);
                    assert(bytes@ == le_bytes((lv as u16) as nat, 2));
                }
                if v is Some {
                    lemma_le_bytes_len(v->0 as nat, 2);
                    assert(bytes@.len() == 2);
                    lemma_le_val_of_le_bytes(v->0 as nat, 2);
                    vstd::arithmetic::div_mod::lemma_small_mod(
                        v->0 as nat,
                        vstd::arithmetic::power2::pow2(16),
                    );
                }
            }
            match v {
                Some(x) => Some(TransactionArgument::U16(x)),
                None => None,
            }
        },
        MoveType::U32 => {
            let v = bcs_parse_u32(bytes);
            proof {
                lemma_pow256_pow2(4);
                vstd::arithmetic::power2::lemma2_to64();
                vstd::arithmetic::power2::lemma2_to64_rest();
                if bytes@.len() == 4 {
                    let lv = le_val(bytes@);
                    lemma_le_bytes_of_le_val(bytes@);
                    assert(lv < vstd::arithmetic::power2::pow2(32));
                    assert((lv as u32) as nat == lv);
                    assert(bytes@ == le_bytes((lv as u32) as nat, 4));
                }
                if v is Some {
                    lemma_le_bytes_len(v->0 as nat, 4);
                    assert(bytes@.len() == 4);
                    lemma_le_val_of_le_bytes(v->0 as nat, 4);
                    vstd::arithmetic::div_mod::lemma_small_mod(
                        v->0 as nat,
                        vstd::arithmetic::power2::pow2(32),
                    );
                }
            }
            match v {
                Some(x) => Some(TransactionArgument::U32(x)),
                None => None,
            }
        },
        MoveType::U64 => {
            let v = bcs_parse_u64(bytes);
            proof {
                lemma_pow256_pow2(8);
                vstd::arithmetic::power2::lemma2_to64();
                vstd::arithmetic::power2::lemma2_to64_rest();
                if bytes@.len() == 8 {
                    let lv = le_val(bytes@);
                    lemma_le_bytes_of_le_val(bytes@);
                    assert(lv < vstd::arithmetic::power2::pow2(64));
                    assert((lv as u64) as nat == lv);
                    assert(bytes@ == le_bytes((lv as u64) as nat, 8));
                }
                if v is Some {
                    lemma_le_bytes_len(v->0 as nat, 8);
                    assert(bytes@.len() == 8);
                    lemma_le_val_of_le_bytes(v->0 as nat, 8);
                    vstd::arithmetic::div_mod::lemma_small_mod(
                        v->0 as nat,
                        vstd::arithmetic::power2::pow2(64),
                    );
                }
            }
            match v {
                Some(x) => Some(TransactionArgument::U64(x)),
                None => None,
            }
        },
        MoveType::U128 => {
            let v = bcs_parse_u128(bytes);
            proof {
                lemma_pow256_pow2(16);
                vstd::arithmetic::power2::lemma2_to64();
                vstd::arithmetic::power2::lemma2_to64_rest();
                assert(vstd::arithmetic::power2::pow2(128)
                    == 0x100000000000000000000000000000000nat) by {
                    vstd::arithmetic::power2::lemma_pow2_adds(64, 64);
                    vstd::arithmetic::power2::lemma2_to64_rest();
                    assert(0x10000000000000000nat * 0x10000000000000000nat
                        == 0x100000000000000000000000000000000nat) by (nonlinear_arith);
                }
                if bytes@.len() == 16 {
                    let lv = le_val(bytes@);
                    lemma_le_bytes_of_le_val(bytes@);
                    assert(lv < vstd::arithmetic::power2::pow2(128));
                    assert((lv as u128) as nat == lv);
                    assert(bytes@ == le_bytes((lv as u128) as nat, 16));
                }
                if v is Some {
                    lemma_le_bytes_len(v->0 as nat, 16);
                    assert(bytes@.len() == 16);
                    lemma_le_val_of_le_bytes(v->0 as nat, 16);
                    vstd::arithmetic::div_mod::lemma_small_mod(
                        v->0 as nat,
                        vstd::arithmetic::power2::pow2(128),
                    );
                }
            }
            match v {
                Some(x) => Some(TransactionArgument::U128(x)),
                None => None,
            }
        },
        MoveType::U256 => {
            if bytes.len() == 32 {
                let v = U256::from_le_bytes(bytes);
                Some(TransactionArgument::U256(v))
            } else {
                None
            }
        },
        MoveType::Address => {
            if bytes.len() == 32 {
                Some(TransactionArgument::Address(clone_bytes(bytes)))
            } else {
                None
            }
        },
        MoveType::Vector(inner) => {
            let inner_is_u8 = matches!(&**inner, MoveType::U8);
            proof {
                assert(inner_is_u8 == (mt_view(**inner) == MoveTypeV::U8));
                assert(mt_view(*ty) == MoveTypeV::Vector(Box::new(mt_view(**inner))));
            }
            if inner_is_u8 {
                if bytes.len() >= 1 && bytes[0] < 128 && bytes.len() == 1 + (bytes[0] as usize) {
                    let mut body: Vec<u8> = Vec::new();
                    let mut i: usize = 1;
                    while i < bytes.len()
                        invariant
                            1 <= i <= bytes@.len(),
                            body@ =~= bytes@.subrange(1, i as int),
                        decreases bytes@.len() - i,
                    {
                        body.push(bytes[i]);
                        i = i + 1;
                    }
                    proof {
                        assert(body@ =~= bytes@.skip(1));
                    }
                    Some(TransactionArgument::U8Vector(body))
                } else {
                    None
                }
            } else {
                let out = TransactionArgument::Serialized(clone_bytes(bytes));
                proof {
                    assert(ta_view(out) == TransactionArgumentV::Serialized(bytes@));
                    assert(bta_spec(mt_view(*ty), bytes@) == Some(
                        TransactionArgumentV::Serialized(bytes@),
                    ));
                }
                Some(out)
            }
        },
        _ => {
            let out = TransactionArgument::Serialized(clone_bytes(bytes));
            proof {
                assert(ta_view(out) == TransactionArgumentV::Serialized(bytes@));
                assert(bta_spec(mt_view(*ty), bytes@) == Some(
                    TransactionArgumentV::Serialized(bytes@),
                ));
            }
            Some(out)
        },
    }
}


/// What collecting one call's raw arguments yields: each raw argument
/// decoded at its declared type, signers and wired results contributing
/// nothing; one undecodable argument spoils the collection.
pub open spec fn collect_args_spec(args: Seq<SequenceArgumentV>) -> Option<
    Seq<TransactionArgumentV>,
>
    decreases args.len(),
{
    if args.len() == 0 {
        Some(Seq::empty())
    } else {
        let rest = collect_args_spec(args.drop_first());
        match args[0] {
            SequenceArgumentV::Raw(b, ty) => match (bta_spec(ty, b), rest) {
                (Some(v), Some(r)) => Some(seq![v] + r),
                _ => None,
            },
            _ => rest,
        }
    }
}

/// What collecting a whole sequence's raw arguments yields.
pub open spec fn collect_calls_spec(calls: Seq<SequenceCallV>) -> Option<
    Seq<TransactionArgumentV>,
>
    decreases calls.len(),
{
    if calls.len() == 0 {
        Some(Seq::empty())
    } else {
        match (collect_args_spec(calls[0].args), collect_calls_spec(calls.drop_first())) {
            (Some(a), Some(r)) => Some(a + r),
            _ => None,
        }
    }
}

/// Flatten a sequence's raw arguments into script argument values, in call
/// order.  Signers and wired results carry no serialized argument; an
/// argument that does not decode at its declared type spoils the whole
/// collection.
#[verifier::loop_isolation(false)]
#[verifier::rlimit(60)]
pub fn collect_txn_args(sequence: &ScriptSequence) -> (r: Option<Vec<TransactionArgument>>)
    ensures
        (match r {
            Some(v) => collect_calls_spec(ss_view(*sequence)) == Some(
                Seq::new(v@.len(), |i: int| ta_view(v@[i])),
            ),
            None => collect_calls_spec(ss_view(*sequence)) is None,
        }),
{
    let ghost whole = ss_view(*sequence);
    let mut out: Vec<TransactionArgument> = Vec::new();
    let calls = sequence.calls();
    let n = calls.len();
    let mut i: usize = 0;
    proof {
        assert(whole.skip(0) =~= whole);
    }
    while i < n
        invariant
            n == whole.len(),
            i <= n,
            (match collect_calls_spec(whole.skip(i as int)) {
                Some(rest) => collect_calls_spec(whole) == Some(
                    Seq::new(out@.len(), |q: int| ta_view(out@[q])) + rest,
                ),
                None => collect_calls_spec(whole) is None,
            }),
        decreases n - i,
    {
        proof {
            assert(whole.skip(i as int).len() > 0);
            assert(whole.skip(i as int)[0] == whole[i as int]);
            assert(whole.skip(i as int).drop_first() =~= whole.skip(i + 1));
        }
        let call = &calls[i];
        let args = call.args();
        let m = args.len();
        let ghost argsv = whole[i as int].args;
        let mut j: usize = 0;
        proof {
            assert(argsv.skip(0) =~= argsv);
            assert(argsv.len() == m);
        }
        while j < m
            invariant
                m == argsv.len(),
                j <= m,
                i < n,
                m == call.args@.len(),
                forall|q: int| 0 <= q < m ==> sa_view(#[trigger] call.args@[q]) == argsv[q],
                (match collect_args_spec(argsv.skip(j as int)) {
                    Some(rest) => (match collect_calls_spec(whole.skip(i + 1)) {
                        Some(later) => collect_calls_spec(whole) == Some(
                            Seq::new(out@.len(), |q: int| ta_view(out@[q])) + rest + later,
                        ),
                        None => collect_calls_spec(whole) is None,
                    }),
                    None => collect_calls_spec(whole) is None,
                }),
            decreases m - j,
        {
            proof {
                assert(argsv.skip(j as int).len() > 0);
                assert(argsv.skip(j as int)[0] == argsv[j as int]);
                assert(argsv.skip(j as int).drop_first() =~= argsv.skip(j + 1));
            }
            match &args[j] {
                SequenceArgument::Raw { bytes, ty } => {
                    let decoded = bytes_to_transaction_argument(ty, bytes);
                    match decoded {
                        Some(v) => {
                            let ghost out_pre = out@;
                            out.push(v);
                            proof {
                                assert(Seq::new(out@.len(), |q: int| ta_view(out@[q])) =~= Seq::new(
                                    out_pre.len(),
                                    |q: int| ta_view(out_pre[q]),
                                ).push(ta_view(v)));
                                if collect_args_spec(argsv.skip(j + 1)) is Some {
                                    let rest2 = collect_args_spec(argsv.skip(j + 1))->0;
                                    assert(Seq::new(out_pre.len(), |q: int| ta_view(out_pre[q]))
                                        + (seq![ta_view(v)] + rest2) =~= Seq::new(
                                        out@.len(),
                                        |q: int| ta_view(out@[q]),
                                    ) + rest2);
                                }
                            }
                        },
                        None => {
                            return None;
                        },
                    }
                },
                _ => {},
            }
            j = j + 1;
        }
        proof {
            assert(argsv.skip(m as int) =~= Seq::<SequenceArgumentV>::empty());
        }
        i = i + 1;
    }
    proof {
        assert(whole.skip(n as int) =~= Seq::<SequenceCallV>::empty());
    }
    Some(out)
}


/// Whether two argument values read the same.
pub fn ta_eq(a: &TransactionArgument, b: &TransactionArgument) -> (r: bool)
    requires
        ta_wf(*a),
        ta_wf(*b),
    ensures
        r == (ta_view(*a) == ta_view(*b)),
{
    match (a, b) {
        (TransactionArgument::U8(x), TransactionArgument::U8(y)) => x == y,
        (TransactionArgument::U16(x), TransactionArgument::U16(y)) => x == y,
        (TransactionArgument::U32(x), TransactionArgument::U32(y)) => x == y,
        (TransactionArgument::U64(x), TransactionArgument::U64(y)) => x == y,
        (TransactionArgument::U128(x), TransactionArgument::U128(y)) => x == y,
        (TransactionArgument::U256(x), TransactionArgument::U256(y)) => {
            let o = x.cmp(y);
            matches!(o, crate::u256::Order::Equal)
        },
        (TransactionArgument::Bool(x), TransactionArgument::Bool(y)) => x == y,
        (TransactionArgument::Address(x), TransactionArgument::Address(y)) => bytes_eq(x, y),
        (TransactionArgument::U8Vector(x), TransactionArgument::U8Vector(y)) => bytes_eq(x, y),
        (TransactionArgument::Serialized(x), TransactionArgument::Serialized(y)) => bytes_eq(
            x,
            y,
        ),
        _ => false,
    }
}

/// Whether two sequence arguments read the same.
pub fn sa_eq(a: &SequenceArgument, b: &SequenceArgument) -> (r: bool)
    ensures
        r == (sa_view(*a) == sa_view(*b)),
{
    match (a, b) {
        (SequenceArgument::Signer(x), SequenceArgument::Signer(y)) => x == y,
        (
            SequenceArgument::Raw { bytes: xb, ty: xt },
            SequenceArgument::Raw { bytes: yb, ty: yt },
        ) => bytes_eq(xb, yb) && mt_eq(xt, yt),
        (
            SequenceArgument::PreviousResult { call_idx: xc, return_idx: xr },
            SequenceArgument::PreviousResult { call_idx: yc, return_idx: yr },
        ) => xc == yc && xr == yr,
        _ => false,
    }
}

/// Whether two calls read the same.
#[verifier::loop_isolation(false)]
pub fn sc_eq(a: &SequenceCall, b: &SequenceCall) -> (r: bool)
    ensures
        r == (sc_view(*a) == sc_view(*b)),
{
    if !module_ref_eq(&a.module, &b.module) {
        return false;
    }
    if !a.function.eq(&b.function) {
        return false;
    }
    if !tl_eq(&a.ty_args, &b.ty_args) {
        return false;
    }
    if a.args.len() != b.args.len() {
        proof {
            assert(sc_view(*a).args.len() != sc_view(*b).args.len());
        }
        return false;
    }
    let n = a.args.len();
    let mut i: usize = 0;
    while i < n
        invariant
            n == a.args@.len() == b.args@.len(),
            i <= n,
            forall|j: int| 0 <= j < i ==> sa_view(a.args@[j]) == sa_view(b.args@[j]),
        decreases n - i,
    {
        if !sa_eq(&a.args[i], &b.args[i]) {
            proof {
                assert(sc_view(*a).args[i as int] != sc_view(*b).args[i as int]);
            }
            return false;
        }
        i = i + 1;
    }
    proof {
        assert(sc_view(*a).args =~= sc_view(*b).args);
    }
    true
}

/// Whether two sequences read the same.
#[verifier::loop_isolation(false)]
pub fn ss_eq(a: &ScriptSequence, b: &ScriptSequence) -> (r: bool)
    ensures
        r == (ss_view(*a) == ss_view(*b)),
{
    if a.calls.len() != b.calls.len() {
        proof {
            assert(ss_view(*a).len() != ss_view(*b).len());
        }
        return false;
    }
    let n = a.calls.len();
    let mut i: usize = 0;
    while i < n
        invariant
            n == a.calls@.len() == b.calls@.len(),
            i <= n,
            forall|j: int| 0 <= j < i ==> sc_view(a.calls@[j]) == sc_view(b.calls@[j]),
        decreases n - i,
    {
        if !sc_eq(&a.calls[i], &b.calls[i]) {
            proof {
                assert(ss_view(*a)[i as int] != ss_view(*b)[i as int]);
            }
            return false;
        }
        i = i + 1;
    }
    proof {
        assert(ss_view(*a) =~= ss_view(*b));
    }
    true
}

} // verus!
