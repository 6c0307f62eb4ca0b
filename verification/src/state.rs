//! The fuzzing session's state.
//!
//! The state owns the corpus and solutions, the function catalog extracted
//! from the loaded modules, the cumulative coverage map, the set of path
//! ids seen so far, and the provenance table mapping each recorded path id
//! to its trace and the input that produced it (first writer wins).

use crate::analysis::StaticAnalysisFinding;
use crate::codec::{
    bcs_bytes_bool, bcs_bytes_empty_list, bcs_bytes_u128, bcs_bytes_u16, bcs_bytes_u32,
    bcs_bytes_u64, bcs_bytes_u8, le_bytes,
};
use crate::concolic::RuntimeIssue;
use crate::coverage::{path_id_from, path_id_spec, MAP_SIZE};
use crate::script_sequence::{
    clone_bytes, mt_view, ss_view, tl_view, ModuleRef, ModuleRefV, MoveType, MoveTypeV,
    ScriptSequence, SequenceCallV, TransactionArgument, TransactionArgumentV, TypeList, ta_view,
};
use vstd::prelude::*;

verus! {

broadcast use vstd::std_specs::hash::group_hash_axioms;

use vstd::string::StringExecFns;

/// The reading of an entry-function payload.
pub struct EntryV {
    pub module: ModuleRefV,
    pub function: Seq<char>,
    pub ty_args: Seq<MoveTypeV>,
    pub args: Seq<Seq<u8>>,
}

/// The reading of a compiled-script payload.
pub struct ScriptV {
    pub code: Seq<u8>,
    pub ty_args: Seq<MoveTypeV>,
    pub args: Seq<TransactionArgumentV>,
}

/// The reading of a transaction payload.
pub enum PayloadV {
    Entry(EntryV),
    Script(ScriptV),
    Other,
}

/// A direct entry-function call with byte-encoded arguments.
#[derive(Debug)]
pub struct EntryFunctionData {
    pub module: ModuleRef,
    pub function: String,
    pub ty_args: TypeList,
    pub args: Vec<Vec<u8>>,
}

/// A compiled script with its argument values.
#[derive(Debug)]
pub struct ScriptData {
    pub code: Vec<u8>,
    pub ty_args: TypeList,
    pub args: Vec<TransactionArgument>,
}

/// What one execution runs: a direct call, a compiled script, or a payload
/// shape this engine does not execute.
#[derive(Debug)]
pub enum TransactionPayload {
    EntryFunction(EntryFunctionData),
    Script(ScriptData),
    Other,
}

/// The reading of an entry-function payload.
pub open spec fn entry_view(e: EntryFunctionData) -> EntryV {
    EntryV {
        module: e.module.view_spec(),
        function: e.function@,
        ty_args: tl_view(e.ty_args),
        args: Seq::new(e.args@.len(), |i: int| e.args@[i]@),
    }
}

/// The reading of a script payload.
pub open spec fn script_view(s: ScriptData) -> ScriptV {
    ScriptV {
        code: s.code@,
        ty_args: tl_view(s.ty_args),
        args: Seq::new(s.args@.len(), |i: int| ta_view(s.args@[i])),
    }
}

/// The reading of a payload.
pub open spec fn payload_view(p: TransactionPayload) -> PayloadV {
    match p {
        TransactionPayload::EntryFunction(e) => PayloadV::Entry(entry_view(e)),
        TransactionPayload::Script(s) => PayloadV::Script(script_view(s)),
        TransactionPayload::Other => PayloadV::Other,
    }
}

impl Clone for EntryFunctionData {
    /// A clone reads the same.
    fn clone(&self) -> (r: Self)
        ensures
            entry_view(r) == entry_view(*self),
    {
        let mut args: Vec<Vec<u8>> = Vec::new();
        let mut i: usize = 0;
        while i < self.args.len()
            invariant
                i <= self.args@.len(),
                args@.len() == i,
                forall|j: int| 0 <= j < i ==> (#[trigger] args@[j])@ == self.args@[j]@,
            decreases self.args@.len() - i,
        {
            args.push(clone_bytes(&self.args[i]));
            i = i + 1;
        }
        let r = EntryFunctionData {
            module: self.module.clone(),
            function: self.function.clone(),
            ty_args: self.ty_args.clone(),
            args,
        };
        proof {
            assert(entry_view(r).args =~= entry_view(*self).args);
        }
        r
    }
}

impl Clone for ScriptData {
    /// A clone reads the same.
    fn clone(&self) -> (r: Self)
        ensures
            script_view(r) == script_view(*self),
            forall|j: int|
                0 <= j < r.args@.len() ==> crate::script_sequence::ta_wf(#[trigger] r.args@[j])
                    == crate::script_sequence::ta_wf(self.args@[j]),
            r.args@.len() == self.args@.len(),
    {
        let mut args: Vec<TransactionArgument> = Vec::new();
        let mut i: usize = 0;
        while i < self.args.len()
            invariant
                i <= self.args@.len(),
                args@.len() == i,
                forall|j: int| 0 <= j < i ==> ta_view(#[trigger] args@[j]) == ta_view(
                    self.args@[j],
                ),
                forall|j: int| 0 <= j < i ==> crate::script_sequence::ta_wf(
                    #[trigger] args@[j],
                ) == crate::script_sequence::ta_wf(self.args@[j]),
            decreases self.args@.len() - i,
        {
            args.push(self.args[i].clone());
            i = i + 1;
        }
        let r = ScriptData {
            code: clone_bytes(&self.code),
            ty_args: self.ty_args.clone(),
            args,
        };
        proof {
            assert(script_view(r).args =~= script_view(*self).args);
        }
        r
    }
}

impl Clone for TransactionPayload {
    /// A clone reads the same.
    fn clone(&self) -> (r: Self)
        ensures
            payload_view(r) == payload_view(*self),
            payload_wf(r) == payload_wf(*self),
    {
        match self {
            TransactionPayload::EntryFunction(e) => TransactionPayload::EntryFunction(e.clone()),
            TransactionPayload::Script(s) => {
                let c = s.clone();
                let r = TransactionPayload::Script(c);
                proof {
                    assert forall|j: int|
                        0 <= j < r->Script_0.args@.len() && crate::script_sequence::ta_wf(
                            s.args@[j],
                        ) implies crate::script_sequence::ta_wf(
                        #[trigger] r->Script_0.args@[j],
                    ) by {}
                    assert forall|j: int|
                        0 <= j < s.args@.len() && crate::script_sequence::ta_wf(
                            r->Script_0.args@[j],
                        ) implies crate::script_sequence::ta_wf(#[trigger] s.args@[j]) by {}
                    assert(payload_wf(r) == payload_wf(*self));
                }
                r
            },
            TransactionPayload::Other => TransactionPayload::Other,
        }
    }
}

/// Every 256-bit value an input carries is well formed.
pub open spec fn payload_wf(p: TransactionPayload) -> bool {
    match p {
        TransactionPayload::Script(s) => forall|j: int|
            0 <= j < s.args@.len() ==> crate::script_sequence::ta_wf(#[trigger] s.args@[j]),
        _ => true,
    }
}

/// The reading of one candidate input.
pub struct InputV {
    pub payload: PayloadV,
    pub sequence: Option<Seq<SequenceCallV>>,
}

/// One candidate input: a payload, and, for compiled scripts, the logical
/// sequence it was built from (the compiled bytes are not remutable).
#[derive(Debug)]
pub struct AptosFuzzerInput {
    pub payload: TransactionPayload,
    pub script_sequence: Option<ScriptSequence>,
}

/// Every 256-bit value an input carries is well formed.
pub open spec fn input_wf(i: AptosFuzzerInput) -> bool {
    payload_wf(i.payload)
}

/// The reading of an input.
pub open spec fn input_view(i: AptosFuzzerInput) -> InputV {
    InputV {
        payload: payload_view(i.payload),
        sequence: match i.script_sequence {
            Some(s) => Some(ss_view(s)),
            None => None,
        },
    }
}

impl AptosFuzzerInput {
    /// An input with no sequence provenance.
    #[verifier::loop_isolation(false)]
    pub fn new(payload: TransactionPayload) -> (r: AptosFuzzerInput)
        ensures
            input_view(r).payload == payload_view(payload),
            input_view(r).sequence is None,
            input_wf(r) == payload_wf(payload),
    {
        AptosFuzzerInput { payload, script_sequence: None }
    }

    /// An input carrying the logical sequence its script was compiled from.
    pub fn with_script(payload: TransactionPayload, sequence: ScriptSequence) -> (r:
        AptosFuzzerInput)
        ensures
            input_view(r).payload == payload_view(payload),
            input_view(r).sequence == Some(ss_view(sequence)),
            input_wf(r) == payload_wf(payload),
    {
        AptosFuzzerInput { payload, script_sequence: Some(sequence) }
    }

    /// The payload.
    pub fn payload(&self) -> (r: &TransactionPayload)
        ensures
            payload_view(*r) == input_view(*self).payload,
    {
        &self.payload
    }

    /// The payload, for mutation in place.
    pub fn payload_mut(&mut self) -> (r: &mut TransactionPayload)
        ensures
            payload_view(*r) == input_view(*old(self)).payload,
            input_view(*final(self)).payload == payload_view(*final(r)),
            input_view(*final(self)).sequence == input_view(*old(self)).sequence,
    {
        &mut self.payload
    }

    /// The logical sequence, if this input is a compiled script.
    pub fn script_sequence(&self) -> (r: Option<&ScriptSequence>)
        ensures
            (match r {
                Some(s) => input_view(*self).sequence == Some(ss_view(*s)),
                None => input_view(*self).sequence is None,
            }),
    {
        self.script_sequence.as_ref()
    }

    /// Replace or clear the logical sequence.
    pub fn set_script_sequence(&mut self, sequence: Option<ScriptSequence>)
        ensures
            input_view(*final(self)).payload == input_view(*old(self)).payload,
            input_view(*final(self)).sequence == (match sequence {
                Some(s) => Some(ss_view(s)),
                None => None::<Seq<SequenceCallV>>,
            }),
    {
        self.script_sequence = sequence;
    }
}

impl Clone for AptosFuzzerInput {
    /// A clone reads the same.
    fn clone(&self) -> (r: Self)
        ensures
            input_view(r) == input_view(*self),
            input_wf(r) == input_wf(*self),
    {
        let seq_copy = match &self.script_sequence {
            Some(s) => Some(s.clone()),
            None => None,
        };
        AptosFuzzerInput { payload: self.payload.clone(), script_sequence: seq_copy }
    }
}

/// Whether two entry payloads read the same.
#[verifier::loop_isolation(false)]
pub fn entry_eq(a: &EntryFunctionData, b: &EntryFunctionData) -> (r: bool)
    ensures
        r == (entry_view(*a) == entry_view(*b)),
{
    if !crate::script_sequence::module_ref_eq(&a.module, &b.module) {
        return false;
    }
    if !a.function.eq(&b.function) {
        return false;
    }
    if !crate::script_sequence::tl_eq(&a.ty_args, &b.ty_args) {
        return false;
    }
    if a.args.len() != b.args.len() {
        proof {
            assert(entry_view(*a).args.len() != entry_view(*b).args.len());
        }
        return false;
    }
    let n = a.args.len();
    let mut i: usize = 0;
    while i < n
        invariant
            n == a.args@.len() == b.args@.len(),
            i <= n,
            forall|j: int| 0 <= j < i ==> (#[trigger] a.args@[j])@ == b.args@[j]@,
        decreases n - i,
    {
        if !crate::script_sequence::bytes_eq(&a.args[i], &b.args[i]) {
            proof {
                assert(entry_view(*a).args[i as int] != entry_view(*b).args[i as int]);
            }
            return false;
        }
        i = i + 1;
    }
    proof {
        assert(entry_view(*a).args =~= entry_view(*b).args);
    }
    true
}

/// Whether two script payloads read the same.
#[verifier::loop_isolation(false)]
pub fn script_eq(a: &ScriptData, b: &ScriptData) -> (r: bool)
    requires
        forall|j: int|
            0 <= j < a.args@.len() ==> crate::script_sequence::ta_wf(#[trigger] a.args@[j]),
        forall|j: int|
            0 <= j < b.args@.len() ==> crate::script_sequence::ta_wf(#[trigger] b.args@[j]),
    ensures
        r == (script_view(*a) == script_view(*b)),
{
    if !crate::script_sequence::bytes_eq(&a.code, &b.code) {
        return false;
    }
    if !crate::script_sequence::tl_eq(&a.ty_args, &b.ty_args) {
        return false;
    }
    if a.args.len() != b.args.len() {
        proof {
            assert(script_view(*a).args.len() != script_view(*b).args.len());
        }
        return false;
    }
    let n = a.args.len();
    let mut i: usize = 0;
    while i < n
        invariant
            n == a.args@.len() == b.args@.len(),
            i <= n,
            forall|j: int| 0 <= j < i ==> ta_view(a.args@[j]) == ta_view(b.args@[j]),
        decreases n - i,
    {
        if !crate::script_sequence::ta_eq(&a.args[i], &b.args[i]) {
            proof {
                assert(script_view(*a).args[i as int] != script_view(*b).args[i as int]);
            }
            return false;
        }
        i = i + 1;
    }
    proof {
        assert(script_view(*a).args =~= script_view(*b).args);
    }
    true
}

/// Whether two payloads read the same.
pub fn payload_eq(a: &TransactionPayload, b: &TransactionPayload) -> (r: bool)
    requires
        payload_wf(*a),
        payload_wf(*b),
    ensures
        r == (payload_view(*a) == payload_view(*b)),
{
    match (a, b) {
        (TransactionPayload::EntryFunction(x), TransactionPayload::EntryFunction(y)) => entry_eq(
            x,
            y,
        ),
        (TransactionPayload::Script(x), TransactionPayload::Script(y)) => script_eq(x, y),
        (TransactionPayload::Other, TransactionPayload::Other) => true,
        _ => false,
    }
}

/// Whether two inputs read the same.
pub fn input_eq(a: &AptosFuzzerInput, b: &AptosFuzzerInput) -> (r: bool)
    requires
        input_wf(*a),
        input_wf(*b),
    ensures
        r == (input_view(*a) == input_view(*b)),
{
    if !payload_eq(&a.payload, &b.payload) {
        return false;
    }
    match (&a.script_sequence, &b.script_sequence) {
        (None, None) => true,
        (Some(x), Some(y)) => crate::script_sequence::ss_eq(x, y),
        _ => false,
    }
}

/// The reading of one declared parameter.
pub enum FunctionParameterV {
    Signer,
    Value(MoveTypeV),
}

/// One declared parameter: a signer, or a value of a given type.
#[derive(Debug)]
pub enum FunctionParameter {
    Signer,
    Value(MoveType),
}

/// The reading of a parameter.
pub open spec fn fp_view(p: FunctionParameter) -> FunctionParameterV {
    match p {
        FunctionParameter::Signer => FunctionParameterV::Signer,
        FunctionParameter::Value(t) => FunctionParameterV::Value(mt_view(t)),
    }
}

impl Clone for FunctionParameter {
    /// A clone reads the same.
    fn clone(&self) -> (r: Self)
        ensures
            fp_view(r) == fp_view(*self),
    {
        match self {
            FunctionParameter::Signer => FunctionParameter::Signer,
            FunctionParameter::Value(t) => FunctionParameter::Value(t.clone()),
        }
    }
}

/// The reading of one catalog entry.
pub struct PublicFunctionTargetV {
    pub module: ModuleRefV,
    pub name: Seq<char>,
    pub parameters: Seq<FunctionParameterV>,
    pub return_types: Seq<MoveTypeV>,
    pub is_entry: bool,
}

/// One public, non-generic function discovered in a loaded module.
#[derive(Debug)]
pub struct PublicFunctionTarget {
    pub module_id: ModuleRef,
    pub name: String,
    pub parameters: Vec<FunctionParameter>,
    pub return_types: Vec<MoveType>,
    pub is_entry: bool,
}

/// The reading of one catalog entry.
pub open spec fn pft_view(f: PublicFunctionTarget) -> PublicFunctionTargetV {
    PublicFunctionTargetV {
        module: f.module_id.view_spec(),
        name: f.name@,
        parameters: Seq::new(f.parameters@.len(), |i: int| fp_view(f.parameters@[i])),
        return_types: Seq::new(f.return_types@.len(), |i: int| mt_view(f.return_types@[i])),
        is_entry: f.is_entry,
    }
}

impl PublicFunctionTarget {
    /// The module that declares the function.
    pub fn module_id(&self) -> (r: &ModuleRef)
        ensures
            r.view_spec() == pft_view(*self).module,
    {
        &self.module_id
    }

    /// The function's name.
    pub fn name(&self) -> (r: &String)
        ensures
            r@ == pft_view(*self).name,
    {
        &self.name
    }

    /// The declared parameters.
    pub fn parameters(&self) -> (r: &Vec<FunctionParameter>)
        ensures
            r@.len() == pft_view(*self).parameters.len(),
            forall|i: int| 0 <= i < r@.len() ==> fp_view(r@[i]) == pft_view(*self).parameters[i],
    {
        &self.parameters
    }

    /// The declared return types.
    pub fn return_types(&self) -> (r: &Vec<MoveType>)
        ensures
            r@.len() == pft_view(*self).return_types.len(),
            forall|i: int| 0 <= i < r@.len() ==> mt_view(r@[i]) == pft_view(*self).return_types[i],
    {
        &self.return_types
    }

    /// Whether the function can head a transaction.
    pub fn is_entry(&self) -> (r: bool)
        ensures
            r == pft_view(*self).is_entry,
    {
        self.is_entry
    }
}

impl Clone for PublicFunctionTarget {
    /// A clone reads the same.
    fn clone(&self) -> (r: Self)
        ensures
            pft_view(r) == pft_view(*self),
    {
        let mut parameters: Vec<FunctionParameter> = Vec::new();
        let mut i: usize = 0;
        while i < self.parameters.len()
            invariant
                i <= self.parameters@.len(),
                parameters@.len() == i,
                forall|j: int| 0 <= j < i ==> fp_view(#[trigger] parameters@[j]) == fp_view(
                    self.parameters@[j],
                ),
            decreases self.parameters@.len() - i,
        {
            parameters.push(self.parameters[i].clone());
            i = i + 1;
        }
        let mut return_types: Vec<MoveType> = Vec::new();
        let mut k: usize = 0;
        while k < self.return_types.len()
            invariant
                k <= self.return_types@.len(),
                return_types@.len() == k,
                forall|j: int| 0 <= j < k ==> mt_view(#[trigger] return_types@[j]) == mt_view(
                    self.return_types@[j],
                ),
            decreases self.return_types@.len() - k,
        {
            return_types.push(self.return_types[k].clone());
            k = k + 1;
        }
        let r = PublicFunctionTarget {
            module_id: self.module_id.clone(),
            name: self.name.clone(),
            parameters,
            return_types,
            is_entry: self.is_entry,
        };
        proof {
            assert(pft_view(r).parameters =~= pft_view(*self).parameters);
            assert(pft_view(r).return_types =~= pft_view(*self).return_types);
        }
        r
    }
}

/// The default byte encoding of a value of a type, if the type is
/// seedable: zero for scalars, the all-zero address, the empty vector for
/// vectors of seedable scalars.
pub open spec fn default_bytes_spec(ty: MoveTypeV) -> Option<Seq<u8>> {
    match ty {
        MoveTypeV::Bool => Some(seq![0u8]),
        MoveTypeV::U8 => Some(le_bytes(0, 1)),
        MoveTypeV::U16 => Some(le_bytes(0, 2)),
        MoveTypeV::U32 => Some(le_bytes(0, 4)),
        MoveTypeV::U64 => Some(le_bytes(0, 8)),
        MoveTypeV::U128 => Some(le_bytes(0, 16)),
        MoveTypeV::U256 => Some(le_bytes(0, 32)),
        MoveTypeV::Address => Some(le_bytes(0, 32)),
        MoveTypeV::Vector(inner) => match *inner {
            MoveTypeV::Bool | MoveTypeV::U8 | MoveTypeV::U16 | MoveTypeV::U32 | MoveTypeV::U64
                | MoveTypeV::U128 | MoveTypeV::U256 | MoveTypeV::Address => Some(seq![0u8]),
            _ => None,
        },
        _ => None,
    }
}

/// The default byte encoding of one argument value.
#[verifier::loop_isolation(false)]
pub fn default_arg_bytes(type_tag: &MoveType) -> (r: Option<Vec<u8>>)
    ensures
        (match r {
            Some(v) => default_bytes_spec(mt_view(*type_tag)) == Some(v@),
            None => default_bytes_spec(mt_view(*type_tag)) is None,
        }),
{
    match type_tag {
        MoveType::Bool => Some(bcs_bytes_bool(false)),
        MoveType::U8 => Some(bcs_bytes_u8(0)),
        MoveType::U16 => Some(bcs_bytes_u16(0)),
        MoveType::U32 => Some(bcs_bytes_u32(0)),
        MoveType::U64 => Some(bcs_bytes_u64(0)),
        MoveType::U128 => Some(bcs_bytes_u128(0)),
        MoveType::U256 => {
            let mut v: Vec<u8> = Vec::new();
            let mut i: usize = 0;
            proof {
                assert(v@ =~= le_bytes(0, 0));
            }
            while i < 32
                invariant
                    i <= 32,
                    v@.len() == i,
                    v@ =~= le_bytes(0, i as nat),
                decreases 32 - i,
            {
                proof {
                    assert(le_bytes(0, (i + 1) as nat) =~= le_bytes(0, i as nat).push(0u8)) by {
                        lemma_zero_le_bytes_push(i as nat);
                    }
                }
                v.push(0);
                i = i + 1;
            }
            Some(v)
        },
        MoveType::Address => {
            let mut v: Vec<u8> = Vec::new();
            let mut i: usize = 0;
            proof {
                assert(v@ =~= le_bytes(0, 0));
            }
            while i < 32
                invariant
                    i <= 32,
                    v@.len() == i,
                    v@ =~= le_bytes(0, i as nat),
                decreases 32 - i,
            {
                proof {
                    assert(le_bytes(0, (i + 1) as nat) =~= le_bytes(0, i as nat).push(0u8)) by {
                        lemma_zero_le_bytes_push(i as nat);
                    }
                }
                v.push(0);
                i = i + 1;
            }
            Some(v)
        },
        MoveType::Vector(inner) => {
            let seedable = matches!(
                &**inner,
                MoveType::Bool | MoveType::U8 | MoveType::U16 | MoveType::U32 | MoveType::U64
                    | MoveType::U128 | MoveType::U256 | MoveType::Address
            );
            proof {
                assert(mt_view(*type_tag) == MoveTypeV::Vector(Box::new(mt_view(**inner))));
                assert(seedable == (mt_view(**inner) is Bool || mt_view(**inner) is U8 || mt_view(
                    **inner,
                ) is U16 || mt_view(**inner) is U32 || mt_view(**inner) is U64 || mt_view(
                    **inner,
                ) is U128 || mt_view(**inner) is U256 || mt_view(**inner) is Address));
            }
            if seedable {
                Some(bcs_bytes_empty_list())
            } else {
                None
            }
        },
        _ => None,
    }
}

/// The little-endian zero of width `k + 1` is the zero of width `k` and
/// one more zero byte.
proof fn lemma_zero_le_bytes_push(k: nat)
    ensures
        le_bytes(0, k + 1) =~= le_bytes(0, k).push(0u8),
    decreases k,
{
    if k > 0 {
        lemma_zero_le_bytes_push((k - 1) as nat);
        assert(le_bytes(0, k + 1) == seq![0u8] + le_bytes(0, k));
        assert(le_bytes(0, k) == seq![0u8] + le_bytes(0, (k - 1) as nat));
    }
}

/// How the provenance table moves when a run is recorded for an input:
/// nothing without a cached id; first writer wins per id; a fresh id gains
/// one entry holding the cached trace and the given input.
pub open spec fn provenance_post(
    pre: Seq<(u64, ExecutionPathRecord)>,
    post: Seq<(u64, ExecutionPathRecord)>,
    current_id: Option<u64>,
    current_path: Option<Vec<u32>>,
    recorded: InputV,
) -> bool {
    match current_id {
        Some(id) => {
            if exists|i: int| 0 <= i < pre.len() && (#[trigger] pre[i]).0 == id {
                post == pre
            } else {
                &&& post.len() == pre.len() + 1
                &&& pre.is_prefix_of(post)
                &&& post.last().0 == id
                &&& input_view(post.last().1.input) == recorded
                &&& (current_path matches Some(p) ==> post.last().1.path@ == p@)
            }
        },
        None => post == pre,
    }
}

/// The defaulted argument list of an entry function: one default byte
/// encoding per value parameter in order, signers contributing nothing;
/// nothing if any value parameter has no default.
pub open spec fn entry_seed_args(params: Seq<FunctionParameterV>) -> Option<Seq<Seq<u8>>>
    decreases params.len(),
{
    if params.len() == 0 {
        Some(Seq::empty())
    } else {
        let rest = entry_seed_args(params.drop_first());
        match params[0] {
            FunctionParameterV::Signer => rest,
            FunctionParameterV::Value(t) => match (default_bytes_spec(t), rest) {
                (Some(b), Some(r)) => Some(seq![b] + r),
                _ => None,
            },
        }
    }
}

/// The seed input of one catalog entry: the defaulted call for a seedable
/// entry function, nothing otherwise.
pub open spec fn seed_of(f: PublicFunctionTargetV) -> Option<InputV> {
    if !f.is_entry {
        None
    } else {
        match entry_seed_args(f.parameters) {
            Some(a) => Some(
                InputV {
                    payload: PayloadV::Entry(
                        EntryV {
                            module: f.module,
                            function: f.name,
                            ty_args: Seq::empty(),
                            args: a,
                        },
                    ),
                    sequence: None,
                },
            ),
            None => None,
        }
    }
}

/// The seeds of a whole catalog, in catalog order.
pub open spec fn seeds_of(cat: Seq<PublicFunctionTargetV>) -> Seq<InputV>
    decreases cat.len(),
{
    if cat.len() == 0 {
        Seq::empty()
    } else {
        (match seed_of(cat[0]) {
            Some(v) => seq![v],
            None => Seq::empty(),
        }) + seeds_of(cat.drop_first())
    }
}

/// Seeding one more catalog entry appends its seed, if it has one.
pub proof fn lemma_seeds_of_snoc(cat: Seq<PublicFunctionTargetV>, x: PublicFunctionTargetV)
    ensures
        seeds_of(cat.push(x)) == seeds_of(cat) + (match seed_of(x) {
            Some(v) => seq![v],
            None => Seq::<InputV>::empty(),
        }),
    decreases cat.len(),
{
    if cat.len() == 0 {
        assert(cat.push(x)[0] == x);
        assert(cat.push(x).drop_first() =~= Seq::<PublicFunctionTargetV>::empty());
        assert(seeds_of(Seq::<PublicFunctionTargetV>::empty()) == Seq::<InputV>::empty());
        assert(seeds_of(cat) == Seq::<InputV>::empty());
        assert((match seed_of(x) {
            Some(v) => seq![v],
            None => Seq::<InputV>::empty(),
        }) + Seq::<InputV>::empty() =~= (match seed_of(x) {
            Some(v) => seq![v],
            None => Seq::<InputV>::empty(),
        }));
        assert(Seq::<InputV>::empty() + (match seed_of(x) {
            Some(v) => seq![v],
            None => Seq::<InputV>::empty(),
        }) =~= (match seed_of(x) {
            Some(v) => seq![v],
            None => Seq::<InputV>::empty(),
        }));
    } else {
        assert(cat.push(x)[0] == cat[0]);
        assert(cat.push(x).drop_first() =~= cat.drop_first().push(x));
        lemma_seeds_of_snoc(cat.drop_first(), x);
        assert(seeds_of(cat.push(x)) =~= seeds_of(cat) + (match seed_of(x) {
            Some(v) => seq![v],
            None => Seq::<InputV>::empty(),
        }));
    }
}

/// Whether a catalog entry carries the given module and function name.
pub open spec fn matches_key(f: PublicFunctionTargetV, m: ModuleRefV, n: Seq<char>) -> bool {
    f.module == m && f.name == n
}

/// The index of the first catalog entry with the given key, or -1.
pub open spec fn first_match(
    cat: Seq<PublicFunctionTarget>,
    m: ModuleRefV,
    n: Seq<char>,
) -> int
    decreases cat.len(),
{
    if cat.len() == 0 {
        -1
    } else if matches_key(pft_view(cat[0]), m, n) {
        0
    } else {
        let rest = first_match(cat.drop_first(), m, n);
        if rest == -1 {
            -1
        } else {
            rest + 1
        }
    }
}

/// A match at `i` with no earlier match is the first match.
pub proof fn lemma_first_match_at(
    cat: Seq<PublicFunctionTarget>,
    m: ModuleRefV,
    n: Seq<char>,
    i: int,
)
    requires
        0 <= i < cat.len(),
        matches_key(pft_view(cat[i]), m, n),
        forall|j: int| 0 <= j < i ==> !matches_key(pft_view(#[trigger] cat[j]), m, n),
    ensures
        first_match(cat, m, n) == i,
    decreases cat.len(),
{
    if i == 0 {
    } else {
        assert(!matches_key(pft_view(cat[0]), m, n));
        assert(forall|j: int|
            0 <= j < i - 1 ==> cat.drop_first()[j] == cat[j + 1]);
        lemma_first_match_at(cat.drop_first(), m, n, i - 1);
    }
}

/// No match anywhere means no first match.
pub proof fn lemma_first_match_none(cat: Seq<PublicFunctionTarget>, m: ModuleRefV, n: Seq<char>)
    requires
        forall|j: int| 0 <= j < cat.len() ==> !matches_key(pft_view(#[trigger] cat[j]), m, n),
    ensures
        first_match(cat, m, n) == -1,
    decreases cat.len(),
{
    if cat.len() > 0 {
        assert(forall|j: int|
            0 <= j < cat.drop_first().len() ==> cat.drop_first()[j] == cat[j + 1]);
        lemma_first_match_none(cat.drop_first(), m, n);
    }
}

/// How an append-only, value-deduplicated store moves on one insertion:
/// a value already present leaves it unchanged, a new value is appended.
pub open spec fn dedup_push_post(
    pre: Seq<AptosFuzzerInput>,
    post: Seq<AptosFuzzerInput>,
    v: InputV,
) -> bool {
    if exists|i: int| 0 <= i < pre.len() && input_view(#[trigger] pre[i]) == v {
        post == pre
    } else {
        &&& post.len() == pre.len() + 1
        &&& pre.is_prefix_of(post)
        &&& input_view(post.last()) == v
    }
}

/// The provenance of one recorded path: its trace and the input that
/// produced it.
pub struct ExecutionPathRecord {
    pub path: Vec<u32>,
    pub input: AptosFuzzerInput,
}

/// The fuzzing session's mutable state.
pub struct AptosFuzzerState {
    /// The random source.
    pub rand: libafl_bolts::rands::RomuDuoJrRand,
    /// Inputs worth keeping for further mutation.
    pub corpus: Vec<AptosFuzzerInput>,
    /// Inputs that satisfied an objective.
    pub solutions: Vec<AptosFuzzerInput>,
    /// The trace of the most recent run.
    pub current_execution_path: Option<Vec<u32>>,
    /// The path id of the most recent run.
    pub current_execution_path_id: Option<u64>,
    /// Provenance per recorded path id, first writer wins.
    pub execution_paths: Vec<(u64, ExecutionPathRecord)>,
    /// Path ids seen by any objective check, process-wide.
    pub seen_execution_paths: vstd::hash_set::HashSetWithView<u64>,
    /// Path ids that fired the abort-code objective.
    pub abort_code_paths: vstd::hash_set::HashSetWithView<u64>,
    /// Path ids that fired the shift-overflow objective.
    pub shift_overflow_paths: vstd::hash_set::HashSetWithView<u64>,
    /// The cumulative coverage map, monotone across runs.
    pub cumulative_coverage: Vec<u8>,
    /// The modules loaded for fuzzing.
    pub target_modules: Vec<ModuleRef>,
    /// Findings of the offline analysis pass.
    pub static_findings: Vec<StaticAnalysisFinding>,
    /// Issues the tracer reported on the most recent run.
    pub last_runtime_issues: Vec<RuntimeIssue>,
    /// The immutable function catalog.
    pub public_functions: Vec<PublicFunctionTarget>,
}

impl AptosFuzzerState {
    /// Ids of the recorded provenance entries are unique; corpus and
    /// solution inputs carry well-formed values.
    pub open spec fn inv(self) -> bool {
        &&& forall|i: int, j: int|
            0 <= i < j < self.execution_paths@.len() ==> (#[trigger] self.execution_paths@[i]).0
                != (#[trigger] self.execution_paths@[j]).0
        &&& self.cumulative_coverage@.len() == MAP_SIZE
        &&& (self.current_execution_path_id is Some <==> self.current_execution_path is Some)
        &&& (self.current_execution_path matches Some(p) ==> self.current_execution_path_id
            == Some(path_id_spec(p@)))
        &&& forall|i: int| 0 <= i < self.corpus@.len() ==> input_wf(#[trigger] self.corpus@[i])
        &&& forall|i: int|
            0 <= i < self.solutions@.len() ==> input_wf(#[trigger] self.solutions@[i])
    }

    /// The fields the path bookkeeping never touches.
    pub open spec fn same_session_rest(self, other: AptosFuzzerState) -> bool {
        &&& self.rand == other.rand
        &&& self.corpus@ == other.corpus@
        &&& self.solutions@ == other.solutions@
        &&& self.cumulative_coverage@ == other.cumulative_coverage@
        &&& self.target_modules@ == other.target_modules@
        &&& self.static_findings@ == other.static_findings@
        &&& self.last_runtime_issues@ == other.last_runtime_issues@
        &&& self.public_functions@ == other.public_functions@
    }

    /// A fresh session over a catalog of discovered functions, seeded with
    /// one default-argument call per seedable entry function.
    pub fn new(
        seed: u64,
        target_modules: Vec<ModuleRef>,
        public_functions: Vec<PublicFunctionTarget>,
    ) -> (r: AptosFuzzerState)
        ensures
            r.inv(),
            r.solutions@.len() == 0,
            r.execution_paths@.len() == 0,
            r.seen_execution_paths@ == Set::<u64>::empty(),
            r.abort_code_paths@ == Set::<u64>::empty(),
            r.shift_overflow_paths@ == Set::<u64>::empty(),
            forall|i: int|
                0 <= i < r.cumulative_coverage@.len() ==> r.cumulative_coverage@[i] == 0,
            r.public_functions@ == public_functions@,
            r.target_modules@ == target_modules@,
            r.current_execution_path_id is None,
            Seq::new(r.corpus@.len(), |i: int| input_view(r.corpus@[i])) == seeds_of(
                Seq::new(public_functions@.len(), |i: int| pft_view(public_functions@[i])),
            ),
    {
        let ghost catv = Seq::new(
            public_functions@.len(),
            |i: int| pft_view(public_functions@[i]),
        );
        let mut corpus: Vec<AptosFuzzerInput> = Vec::new();
        let mut i: usize = 0;
        proof {
            assert(catv.take(0) =~= Seq::<PublicFunctionTargetV>::empty());
            assert(Seq::new(corpus@.len(), |q: int| input_view(corpus@[q]))
                =~= Seq::<InputV>::empty());
        }
        while i < public_functions.len()
            invariant
                i <= public_functions@.len(),
                catv.len() == public_functions@.len(),
                forall|j: int| 0 <= j < catv.len() ==> catv[j] == pft_view(
                    public_functions@[j],
                ),
                forall|j: int| 0 <= j < corpus@.len() ==> input_wf(#[trigger] corpus@[j]),
                Seq::new(corpus@.len(), |q: int| input_view(corpus@[q])) == seeds_of(
                    catv.take(i as int),
                ),
            decreases public_functions@.len() - i,
        {
            proof {
                assert(catv.take(i + 1) =~= catv.take(i as int).push(catv[i as int]));
                lemma_seeds_of_snoc(catv.take(i as int), catv[i as int]);
            }
            let ghost corpus_pre = corpus@;
            let f = &public_functions[i];
            if f.is_entry {
                let payload = entry_payload_from_function(f);
                match payload {
                    Some(p) => {
                        proof {
                            assert(payload_wf(p));
                            let e = payload_view(p)->Entry_0;
                            assert(e.ty_args =~= Seq::<MoveTypeV>::empty());
                            assert(seed_of(catv[i as int]) == Some(
                                InputV { payload: payload_view(p), sequence: None },
                            ));
                        }
                        corpus.push(AptosFuzzerInput::new(p));
                        proof {
                            assert(Seq::new(corpus@.len(), |q: int| input_view(corpus@[q]))
                                =~= Seq::new(
                                corpus_pre.len(),
                                |q: int| input_view(corpus_pre[q]),
                            ).push(input_view(corpus@.last())));
                            assert(seeds_of(catv.take(i + 1)) =~= Seq::new(
                                corpus@.len(),
                                |q: int| input_view(corpus@[q]),
                            ));
                        }
                    },
                    None => {
                        proof {
                            assert(seed_of(catv[i as int]) is None);
                            assert(seeds_of(catv.take(i as int)) + Seq::<InputV>::empty()
                                =~= seeds_of(catv.take(i as int)));
                        }
                    },
                }
            } else {
                proof {
                    assert(seed_of(catv[i as int]) is None);
                    assert(seeds_of(catv.take(i as int)) + Seq::<InputV>::empty() =~= seeds_of(
                        catv.take(i as int),
                    ));
                }
            }
            i = i + 1;
        }
        proof {
            assert(catv.take(public_functions@.len() as int) =~= catv);
        }
        let mut cumulative: Vec<u8> = Vec::new();
        let mut k: usize = 0;
        while k < MAP_SIZE
            invariant
                k <= MAP_SIZE,
                cumulative@.len() == k,
                forall|j: int| 0 <= j < k ==> cumulative@[j] == 0,
            decreases MAP_SIZE - k,
        {
            cumulative.push(0);
            k = k + 1;
        }
        AptosFuzzerState {
            rand: crate::rng::rand_with_seed(seed),
            corpus,
            solutions: Vec::new(),
            current_execution_path: None,
            current_execution_path_id: None,
            execution_paths: Vec::new(),
            seen_execution_paths: vstd::hash_set::HashSetWithView::new(),
            abort_code_paths: vstd::hash_set::HashSetWithView::new(),
            shift_overflow_paths: vstd::hash_set::HashSetWithView::new(),
            cumulative_coverage: cumulative,
            target_modules,
            static_findings: Vec::new(),
            last_runtime_issues: Vec::new(),
            public_functions,
        }
    }

    /// Drain the seeded corpus so a driver can replay the seeds through its
    /// own feedback path.
    pub fn take_initial_inputs(&mut self) -> (r: Vec<AptosFuzzerInput>)
        requires
            old(self).inv(),
        ensures
            final(self).inv(),
            r@ == old(self).corpus@,
            final(self).corpus@.len() == 0,
            final(self).execution_paths@ == old(self).execution_paths@,
            final(self).seen_execution_paths@ == old(self).seen_execution_paths@,
            final(self).abort_code_paths@ == old(self).abort_code_paths@,
            final(self).shift_overflow_paths@ == old(self).shift_overflow_paths@,
            final(self).solutions@ == old(self).solutions@,
            final(self).cumulative_coverage@ == old(self).cumulative_coverage@,
            final(self).current_execution_path_id == old(self).current_execution_path_id,
            final(self).current_execution_path == old(self).current_execution_path,
            final(self).target_modules@ == old(self).target_modules@,
            final(self).static_findings@ == old(self).static_findings@,
            final(self).last_runtime_issues@ == old(self).last_runtime_issues@,
            final(self).public_functions@ == old(self).public_functions@,
    {
        let mut out: Vec<AptosFuzzerInput> = Vec::new();
        core::mem::swap(&mut out, &mut self.corpus);
        out
    }

    /// The path id of a trace: an FNV-1a fold over its words.  A pure
    /// function of the trace, so equal traces always get equal ids.
    #[verifier::loop_isolation(false)]
    pub fn compute_execution_path_id(execution_path: &Vec<u32>) -> (r: u64)
        ensures
            r == path_id_spec(execution_path@),
    {
        let mut h: u64 = 0xcbf29ce484222325u64;
        let mut i: usize = 0;
        proof {
            assert(execution_path@.skip(0) =~= execution_path@);
        }
        while i < execution_path.len()
            invariant
                i <= execution_path@.len(),
                path_id_spec(execution_path@) == path_id_from(
                    h,
                    execution_path@.skip(i as int),
                ),
            decreases execution_path@.len() - i,
        {
            proof {
                assert(execution_path@.skip(i as int).len() > 0);
                assert(execution_path@.skip(i as int)[0] == execution_path@[i as int]);
                assert(execution_path@.skip(i as int).drop_first() =~= execution_path@.skip(
                    i + 1,
                ));
            }
            h = (h ^ (execution_path[i] as u64)).wrapping_mul(0x100000001b3u64);
            i = i + 1;
        }
        proof {
            assert(execution_path@.skip(i as int) =~= Seq::<u32>::empty());
        }
        h
    }

    /// Forget the previous run's trace.
    pub fn clear_current_execution_path(&mut self)
        requires
            old(self).inv(),
        ensures
            final(self).inv(),
            final(self).current_execution_path_id is None,
            final(self).current_execution_path is None,
            final(self).seen_execution_paths@ == old(self).seen_execution_paths@,
            final(self).execution_paths@ == old(self).execution_paths@,
            final(self).abort_code_paths@ == old(self).abort_code_paths@,
            final(self).shift_overflow_paths@ == old(self).shift_overflow_paths@,
            final(self).same_session_rest(*old(self)),
    {
        self.current_execution_path = None;
        self.current_execution_path_id = None;
    }

    /// Record the trace of the run that just finished, and cache its id.
    pub fn set_current_execution_path(&mut self, execution_path: Vec<u32>)
        requires
            old(self).inv(),
        ensures
            final(self).inv(),
            final(self).current_execution_path_id == Some(path_id_spec(execution_path@)),
            final(self).current_execution_path is Some,
            final(self).current_execution_path->0@ == execution_path@,
            final(self).seen_execution_paths@ == old(self).seen_execution_paths@,
            final(self).execution_paths@ == old(self).execution_paths@,
            final(self).abort_code_paths@ == old(self).abort_code_paths@,
            final(self).shift_overflow_paths@ == old(self).shift_overflow_paths@,
            final(self).same_session_rest(*old(self)),
    {
        let id = Self::compute_execution_path_id(&execution_path);
        self.current_execution_path = Some(execution_path);
        self.current_execution_path_id = Some(id);
    }

    /// The cached path id of the most recent run.
    pub fn current_execution_path_id(&self) -> (r: Option<u64>)
        ensures
            r == self.current_execution_path_id,
    {
        self.current_execution_path_id
    }

    /// Check and insert: returns whether the id was new, and the set only
    /// ever grows.
    pub fn mark_execution_path_seen(&mut self, path_id: u64) -> (r: bool)
        requires
            old(self).inv(),
        ensures
            final(self).inv(),
            r == !old(self).seen_execution_paths@.contains(path_id),
            final(self).seen_execution_paths@ == old(self).seen_execution_paths@.insert(path_id),
            final(self).execution_paths@ == old(self).execution_paths@,
            final(self).current_execution_path_id == old(self).current_execution_path_id,
            final(self).current_execution_path == old(self).current_execution_path,
            final(self).abort_code_paths@ == old(self).abort_code_paths@,
            final(self).shift_overflow_paths@ == old(self).shift_overflow_paths@,
            final(self).same_session_rest(*old(self)),
    {
        self.seen_execution_paths.insert(path_id)
    }

    /// Whether an objective already consumed this path id.
    pub fn has_seen_execution_path(&self, path_id: u64) -> (r: bool)
        ensures
            r == self.seen_execution_paths@.contains(path_id),
    {
        self.seen_execution_paths.contains(&path_id)
    }

    /// Record the current trace for this input, first writer wins per path
    /// id.  Returns the id when a trace is cached.
    #[verifier::loop_isolation(false)]
    pub fn record_current_execution_path_for(&mut self, input: &AptosFuzzerInput) -> (r: Option<
        u64,
    >)
        requires
            old(self).inv(),
        ensures
            final(self).inv(),
            r == old(self).current_execution_path_id,
            final(self).seen_execution_paths@ == old(self).seen_execution_paths@,
            final(self).current_execution_path_id == old(self).current_execution_path_id,
            final(self).current_execution_path == old(self).current_execution_path,
            final(self).abort_code_paths@ == old(self).abort_code_paths@,
            final(self).shift_overflow_paths@ == old(self).shift_overflow_paths@,
            final(self).same_session_rest(*old(self)),
            provenance_post(
                old(self).execution_paths@,
                final(self).execution_paths@,
                old(self).current_execution_path_id,
                old(self).current_execution_path,
                input_view(*input),
            ),
    {
        if self.current_execution_path_id.is_none() {
            return None;
        }
        let id = self.current_execution_path_id.unwrap();
        let mut i: usize = 0;
        let n = self.execution_paths.len();
        while i < n
            invariant
                n == self.execution_paths@.len(),
                i <= n,
                forall|j: int| 0 <= j < i ==> (#[trigger] self.execution_paths@[j]).0 != id,
            decreases n - i,
        {
            if self.execution_paths[i].0 == id {
                return Some(id);
            }
            i = i + 1;
        }
        let path = match &self.current_execution_path {
            Some(p) => clone_trace(p),
            None => Vec::new(),
        };
        let record = ExecutionPathRecord { path, input: input.clone() };
        self.execution_paths.push((id, record));
        Some(id)
    }

    /// The recorded trace of a path id, if any.
    #[verifier::loop_isolation(false)]
    pub fn get_solution_execution_path(&self, path_id: u64) -> (r: Option<Vec<u32>>)
        ensures
            (match r {
                Some(p) => exists|i: int|
                    0 <= i < self.execution_paths@.len() && (
                    #[trigger] self.execution_paths@[i]).0 == path_id
                        && self.execution_paths@[i].1.path@ == p@,
                None => forall|i: int|
                    0 <= i < self.execution_paths@.len() ==> (
                    #[trigger] self.execution_paths@[i]).0 != path_id,
            }),
    {
        let mut i: usize = 0;
        let n = self.execution_paths.len();
        while i < n
            invariant
                n == self.execution_paths@.len(),
                i <= n,
                forall|j: int| 0 <= j < i ==> (#[trigger] self.execution_paths@[j]).0 != path_id,
            decreases n - i,
        {
            if self.execution_paths[i].0 == path_id {
                return Some(clone_trace(&self.execution_paths[i].1.path));
            }
            i = i + 1;
        }
        None
    }

    /// Whether a path id has recorded provenance.
    #[verifier::loop_isolation(false)]
    pub fn get_solution_execution_path_id(&self, path_id: u64) -> (r: Option<u64>)
        ensures
            (match r {
                Some(id) => id == path_id && exists|i: int|
                    0 <= i < self.execution_paths@.len() && (
                    #[trigger] self.execution_paths@[i]).0 == path_id,
                None => forall|i: int|
                    0 <= i < self.execution_paths@.len() ==> (
                    #[trigger] self.execution_paths@[i]).0 != path_id,
            }),
    {
        let mut i: usize = 0;
        let n = self.execution_paths.len();
        while i < n
            invariant
                n == self.execution_paths@.len(),
                i <= n,
                forall|j: int| 0 <= j < i ==> (#[trigger] self.execution_paths@[j]).0 != path_id,
            decreases n - i,
        {
            if self.execution_paths[i].0 == path_id {
                return Some(path_id);
            }
            i = i + 1;
        }
        None
    }

    /// Exactly one input per distinct recorded path id: the provenance
    /// inputs of the table, in recording order.
    #[verifier::loop_isolation(false)]
    pub fn take_solutions(&self) -> (r: Vec<AptosFuzzerInput>)
        requires
            self.inv(),
        ensures
            r@.len() == self.execution_paths@.len(),
            forall|i: int|
                0 <= i < r@.len() ==> input_view(#[trigger] r@[i]) == input_view(
                    self.execution_paths@[i].1.input,
                ),
    {
        let mut out: Vec<AptosFuzzerInput> = Vec::new();
        let mut i: usize = 0;
        let n = self.execution_paths.len();
        while i < n
            invariant
                n == self.execution_paths@.len(),
                i <= n,
                out@.len() == i,
                forall|j: int|
                    0 <= j < i ==> input_view(#[trigger] out@[j]) == input_view(
                        self.execution_paths@[j].1.input,
                    ),
            decreases n - i,
        {
            out.push(self.execution_paths[i].1.input.clone());
            i = i + 1;
        }
        out
    }

    /// Remember the issues of the run that just finished.
    pub fn set_last_runtime_issues(&mut self, issues: Vec<RuntimeIssue>)
        requires
            old(self).inv(),
        ensures
            final(self).inv(),
            final(self).last_runtime_issues@ == issues@,
    {
        self.last_runtime_issues = issues;
    }

    /// The issues of the run that just finished.
    pub fn last_runtime_issues(&self) -> (r: &Vec<RuntimeIssue>)
        ensures
            r@ == self.last_runtime_issues@,
    {
        &self.last_runtime_issues
    }

    /// The loaded modules.
    pub fn target_modules(&self) -> (r: &Vec<ModuleRef>)
        ensures
            r@ == self.target_modules@,
    {
        &self.target_modules
    }

    /// The function catalog.
    pub fn public_functions(&self) -> (r: &Vec<PublicFunctionTarget>)
        ensures
            r@ == self.public_functions@,
    {
        &self.public_functions
    }

    /// The catalog entry for a module and function name, if any: the first
    /// match.
    #[verifier::loop_isolation(false)]
    pub fn public_function(&self, module_id: &ModuleRef, name: &String) -> (r: Option<
        &PublicFunctionTarget,
    >)
        ensures
            ({
                let fm = first_match(self.public_functions@, module_id.view_spec(), name@);
                match r {
                    Some(f) => 0 <= fm < self.public_functions@.len() && pft_view(*f)
                        == pft_view(self.public_functions@[fm]) && matches_key(
                        pft_view(*f),
                        module_id.view_spec(),
                        name@,
                    ),
                    None => fm == -1,
                }
            }),
    {
        let mut i: usize = 0;
        let n = self.public_functions.len();
        while i < n
            invariant
                n == self.public_functions@.len(),
                i <= n,
                forall|j: int|
                    0 <= j < i ==> !matches_key(
                        pft_view(#[trigger] self.public_functions@[j]),
                        module_id.view_spec(),
                        name@,
                    ),
            decreases n - i,
        {
            let f = &self.public_functions[i];
            let hit = crate::script_sequence::module_ref_eq(&f.module_id, module_id)
                && f.name.eq(name);
            if hit {
                proof {
                    lemma_first_match_at(
                        self.public_functions@,
                        module_id.view_spec(),
                        name@,
                        i as int,
                    );
                }
                return Some(f);
            }
            i = i + 1;
        }
        proof {
            lemma_first_match_none(self.public_functions@, module_id.view_spec(), name@);
        }
        None
    }

    /// Replace the findings of the offline pass.
    pub fn set_static_findings(&mut self, findings: Vec<StaticAnalysisFinding>)
        requires
            old(self).inv(),
        ensures
            final(self).inv(),
            final(self).static_findings@ == findings@,
    {
        self.static_findings = findings;
    }

    /// The findings of the offline pass.
    pub fn static_findings(&self) -> (r: &Vec<StaticAnalysisFinding>)
        ensures
            r@ == self.static_findings@,
    {
        &self.static_findings
    }

    /// The cumulative coverage map.
    pub fn cumulative_coverage(&self) -> (r: &Vec<u8>)
        ensures
            r@ == self.cumulative_coverage@,
    {
        &self.cumulative_coverage
    }

    /// Keep an input that satisfied an objective; a value-equal input is
    /// kept only once.
    #[verifier::loop_isolation(false)]
    pub fn add_solution(&mut self, input: AptosFuzzerInput)
        requires
            old(self).inv(),
            input_wf(input),
        ensures
            final(self).inv(),
            dedup_push_post(old(self).solutions@, final(self).solutions@, input_view(input)),
            final(self).corpus@ == old(self).corpus@,
            final(self).execution_paths@ == old(self).execution_paths@,
            final(self).seen_execution_paths@ == old(self).seen_execution_paths@,
            final(self).abort_code_paths@ == old(self).abort_code_paths@,
            final(self).shift_overflow_paths@ == old(self).shift_overflow_paths@,
            final(self).current_execution_path_id == old(self).current_execution_path_id,
            final(self).current_execution_path == old(self).current_execution_path,
            final(self).cumulative_coverage@ == old(self).cumulative_coverage@,
    {
        let n = self.solutions.len();
        let mut i: usize = 0;
        while i < n
            invariant
                n == self.solutions@.len(),
                i <= n,
                forall|j: int|
                    0 <= j < i ==> input_view(#[trigger] self.solutions@[j]) != input_view(
                        input,
                    ),
            decreases n - i,
        {
            if input_eq(&self.solutions[i], &input) {
                return ;
            }
            i = i + 1;
        }
        self.solutions.push(input);
    }

    /// Keep an input worth mutating further; a value-equal input is kept
    /// only once.
    #[verifier::loop_isolation(false)]
    pub fn add_corpus_input(&mut self, input: AptosFuzzerInput)
        requires
            old(self).inv(),
            input_wf(input),
        ensures
            final(self).inv(),
            dedup_push_post(old(self).corpus@, final(self).corpus@, input_view(input)),
            final(self).solutions@ == old(self).solutions@,
            final(self).execution_paths@ == old(self).execution_paths@,
            final(self).seen_execution_paths@ == old(self).seen_execution_paths@,
            final(self).abort_code_paths@ == old(self).abort_code_paths@,
            final(self).shift_overflow_paths@ == old(self).shift_overflow_paths@,
            final(self).current_execution_path_id == old(self).current_execution_path_id,
            final(self).current_execution_path == old(self).current_execution_path,
            final(self).cumulative_coverage@ == old(self).cumulative_coverage@,
    {
        let n = self.corpus.len();
        let mut i: usize = 0;
        while i < n
            invariant
                n == self.corpus@.len(),
                i <= n,
                forall|j: int|
                    0 <= j < i ==> input_view(#[trigger] self.corpus@[j]) != input_view(input),
            decreases n - i,
        {
            if input_eq(&self.corpus[i], &input) {
                return ;
            }
            i = i + 1;
        }
        self.corpus.push(input);
    }
}

/// Copy a trace.
#[verifier::loop_isolation(false)]
pub fn clone_trace(v: &Vec<u32>) -> (r: Vec<u32>)
    ensures
        r@ == v@,
{
    let mut out: Vec<u32> = Vec::new();
    let mut i: usize = 0;
    while i < v.len()
        invariant
            i <= v@.len(),
            out@ =~= v@.take(i as int),
        decreases v@.len() - i,
    {
        out.push(v[i]);
        i = i + 1;
    }
    proof {
        assert(out@ =~= v@);
    }
    out
}

/// Whether a payload shape is one this engine executes: a direct call or
/// a compiled script.  Anything else is reported as an unsupported status
/// and classified as an ordinary, uninteresting failure.
pub fn payload_supported(p: &TransactionPayload) -> (r: bool)
    ensures
        r == (payload_view(*p) is Entry || payload_view(*p) is Script),
{
    match p {
        TransactionPayload::EntryFunction(_) => true,
        TransactionPayload::Script(_) => true,
        TransactionPayload::Other => false,
    }
}

/// Whether a path's segments mark dependency or vendored code, which the
/// module scan skips.
#[verifier::loop_isolation(false)]
pub fn is_dependency_path(segments: &Vec<String>) -> (r: bool)
    ensures
        r == (exists|i: int| 0 <= i < segments@.len() && (#[trigger] segments@[i])@
            == "dependencies"@),
{
    let mut i: usize = 0;
    let mut found = false;
    while i < segments.len()
        invariant
            i <= segments@.len(),
            found == (exists|j: int| 0 <= j < i && (#[trigger] segments@[j])@
                == "dependencies"@),
        decreases segments@.len() - i,
    {
        let key = String::from_str("dependencies");
        if segments[i].eq(&key) {
            found = true;
        }
        i = i + 1;
    }
    found
}

/// The seed call for one entry function: every value parameter defaulted.
/// A parameter of an unseedable type makes the function unseedable.
#[verifier::loop_isolation(false)]
#[verifier::loop_isolation(false)]
pub fn entry_payload_from_function(function: &PublicFunctionTarget) -> (r: Option<
    TransactionPayload,
>)
    ensures
        r is Some <==> entry_seed_args(pft_view(*function).parameters) is Some,
        (r matches Some(p) ==> {
            let e = payload_view(p);
            &&& e is Entry
            &&& e->Entry_0.module == pft_view(*function).module
            &&& e->Entry_0.function == pft_view(*function).name
            &&& e->Entry_0.ty_args.len() == 0
            &&& Some(e->Entry_0.args) == entry_seed_args(pft_view(*function).parameters)
            &&& payload_wf(p)
        }),
{
    let ghost paramsv = pft_view(*function).parameters;
    let mut args: Vec<Vec<u8>> = Vec::new();
    let mut i: usize = 0;
    let n = function.parameters.len();
    proof {
        assert(paramsv.skip(0) =~= paramsv);
    }
    while i < n
        invariant
            n == function.parameters@.len(),
            n == paramsv.len(),
            i <= n,
            (match entry_seed_args(paramsv.skip(i as int)) {
                Some(rest) => entry_seed_args(paramsv) == Some(
                    Seq::new(args@.len(), |q: int| args@[q]@) + rest,
                ),
                None => entry_seed_args(paramsv) is None,
            }),
        decreases n - i,
    {
        proof {
            assert(paramsv.skip(i as int).len() > 0);
            assert(paramsv.skip(i as int)[0] == paramsv[i as int]);
            assert(paramsv.skip(i as int).drop_first() =~= paramsv.skip(i + 1));
        }
        match &function.parameters[i] {
            FunctionParameter::Value(tag) => {
                let bytes = default_arg_bytes(tag);
                match bytes {
                    Some(b) => {
                        let ghost args_pre = args@;
                        args.push(b);
                        proof {
                            if entry_seed_args(paramsv.skip(i + 1)) is Some {
                                let rest2 = entry_seed_args(paramsv.skip(i + 1))->0;
                                assert(Seq::new(args_pre.len(), |q: int| args_pre[q]@) + (seq![
                                    b@,
                                ] + rest2) =~= Seq::new(args@.len(), |q: int| args@[q]@)
                                    + rest2);
                            }
                        }
                    },
                    None => {
                        return None;
                    },
                }
            },
            FunctionParameter::Signer => {},
        }
        i = i + 1;
    }
    proof {
        assert(paramsv.skip(n as int) =~= Seq::<FunctionParameterV>::empty());
    }
    let entry = EntryFunctionData {
        module: function.module_id.clone(),
        function: function.name.clone(),
        ty_args: TypeList::Nil,
        args,
    };
    let p = TransactionPayload::EntryFunction(entry);
    proof {
        assert(payload_view(p)->Entry_0.args =~= Seq::new(
            payload_view(p)->Entry_0.args.len(),
            |q: int| payload_view(p)->Entry_0.args[q],
        ));
    }
    Some(p)
}

} // verus!
