//! The mutator: raw-byte mutation of direct calls and growth of multi-call
//! sequences.
//!
//! A direct call gets uniform random bytes written over its arguments,
//! keeping each argument's length (an empty argument gets a fresh small
//! length).  A sequence grows by proposing a random catalog function,
//! wiring type-matching earlier results in with even odds, and defaulting
//! the rest; compiling the candidate is the driver's part, and an accepted
//! compiled script replaces the payload with the grown sequence as its
//! provenance.

use crate::rng::rand_next;
use crate::script_sequence::{
    mt_eq, mt_view, sa_view, sc_view, ss_view, MoveType, MoveTypeV, ScriptSequence,
    SequenceArgument, SequenceArgumentV, SequenceCall, SequenceCallV, TransactionArgument,
    TypeList,
};
use crate::state::{
    default_arg_bytes, default_bytes_spec, entry_view, input_view, pft_view, AptosFuzzerInput,
    AptosFuzzerState, EntryFunctionData, FunctionParameter, FunctionParameterV,
    PublicFunctionTarget, ScriptData, TransactionPayload,
};
use crate::u256::U256;
use vstd::prelude::*;

verus! {

/// What one mutation attempt reports.
#[derive(Clone, Copy, Debug, PartialEq, Eq, Structural)]
pub enum MutationResult {
    Mutated,
    Skipped,
}

/// The byte-level mutator over candidate inputs.
#[derive(Debug)]
pub struct AptosFuzzerMutator {}

impl AptosFuzzerMutator {
    /// A mutator.
    pub fn new() -> (r: AptosFuzzerMutator) {
        AptosFuzzerMutator {}
    }
}

/// Overwrite a byte argument with random bytes, keeping its length; an
/// empty argument gets a fresh random length between 1 and 16.
pub fn mutate_byte_vector(bytes: &mut Vec<u8>, rand: &mut libafl_bolts::rands::RomuDuoJrRand)
    -> (r: bool)
    ensures
        r == true,
        old(bytes)@.len() > 0 ==> final(bytes)@.len() == old(bytes)@.len(),
        old(bytes)@.len() == 0 ==> 1 <= final(bytes)@.len() <= 16,
{
    let len: usize = if bytes.len() == 0 {
        (1 + (rand_next(rand) % 16)) as usize
    } else {
        bytes.len()
    };
    let mut out: Vec<u8> = Vec::new();
    let mut i: usize = 0;
    while i < len
        invariant
            out@.len() == i,
            i <= len,
        decreases len - i,
    {
        out.push((rand_next(rand) & 0xFF) as u8);
        i = i + 1;
    }
    *bytes = out;
    true
}

/// Mutate every argument of a direct call, keeping the argument count and
/// each argument's length.  A call with no arguments reports no mutation.
pub fn mutate_entry_function_args(
    entry_func: &mut EntryFunctionData,
    rand: &mut libafl_bolts::rands::RomuDuoJrRand,
) -> (r: bool)
    ensures
        r == (old(entry_func).args@.len() > 0),
        final(entry_func).args@.len() == old(entry_func).args@.len(),
        entry_view(*final(entry_func)).module == entry_view(*old(entry_func)).module,
        entry_view(*final(entry_func)).function == entry_view(*old(entry_func)).function,
        entry_view(*final(entry_func)).ty_args == entry_view(*old(entry_func)).ty_args,
        forall|i: int|
            0 <= i < old(entry_func).args@.len() && (#[trigger] old(entry_func).args@[i])@.len()
                > 0 ==> final(entry_func).args@[i]@.len() == old(entry_func).args@[i]@.len(),
        old(entry_func).args@.len() == 0 ==> entry_view(*final(entry_func)) == entry_view(
            *old(entry_func),
        ),
{
    if entry_func.args.len() == 0 {
        return false;
    }
    let n = entry_func.args.len();
    let mut i: usize = 0;
    while i < n
        invariant
            n == entry_func.args@.len(),
            i <= n,
            entry_func.module == old(entry_func).module,
            entry_func.function == old(entry_func).function,
            entry_func.ty_args == old(entry_func).ty_args,
            forall|j: int|
                i <= j < n ==> #[trigger] entry_func.args@[j] == old(entry_func).args@[j],
            forall|j: int|
                0 <= j < i && (#[trigger] old(entry_func).args@[j])@.len() > 0
                    ==> entry_func.args@[j]@.len() == old(entry_func).args@[j]@.len(),
        decreases n - i,
    {
        let mut arg = crate::script_sequence::clone_bytes(&entry_func.args[i]);
        let _ = mutate_byte_vector(&mut arg, rand);
        entry_func.args.set(i, arg);
        i = i + 1;
    }
    true
}

/// Mutate one script argument in place, keeping its shape: scalars get a
/// fresh random value, an address stays 32 bytes, and byte vectors get a
/// fresh length below 64.
pub fn mutate_transaction_argument(
    arg: &mut TransactionArgument,
    rand: &mut libafl_bolts::rands::RomuDuoJrRand,
) -> (r: bool)
    ensures
        r == true,
        (*old(arg) is U8 <==> *final(arg) is U8),
        (*old(arg) is U16 <==> *final(arg) is U16),
        (*old(arg) is U32 <==> *final(arg) is U32),
        (*old(arg) is U64 <==> *final(arg) is U64),
        (*old(arg) is U128 <==> *final(arg) is U128),
        (*old(arg) is U256 <==> *final(arg) is U256),
        (*old(arg) is Bool <==> *final(arg) is Bool),
        (*old(arg) is Address <==> *final(arg) is Address),
        (*old(arg) is U8Vector <==> *final(arg) is U8Vector),
        (*old(arg) is Serialized <==> *final(arg) is Serialized),
        *final(arg) is Address ==> (*final(arg))->Address_0@.len() == 32,
        *final(arg) is U8Vector ==> (*final(arg))->U8Vector_0@.len() < 64,
        *final(arg) is Serialized ==> (*final(arg))->Serialized_0@.len() < 64,
{
    match arg {
        TransactionArgument::U8(val) => {
            *val = (rand_next(rand) & 0xFF) as u8;
        },
        TransactionArgument::U16(val) => {
            *val = (rand_next(rand) % 65536) as u16;
        },
        TransactionArgument::U32(val) => {
            *val = (rand_next(rand) & 0xFFFFFFFF) as u32;
        },
        TransactionArgument::U64(val) => {
            *val = rand_next(rand);
        },
        TransactionArgument::U128(val) => {
            let hi = rand_next(rand) as u128;
            let lo = rand_next(rand) as u128;
            proof {
                assert(hi * 0x10000000000000000u128 as int + lo
                    < 0x100000000000000000000000000000000) by (nonlinear_arith)
                    requires
                        hi < 0x10000000000000000,
                        lo < 0x10000000000000000,
                ;
            }
            *val = hi * 0x10000000000000000u128 + lo;
        },
        TransactionArgument::U256(val) => {
            let w0 = rand_next(rand);
            let w1 = rand_next(rand);
            let w2 = rand_next(rand);
            let w3 = rand_next(rand);
            *val = U256::from_u64_words(w0, w1, w2, w3);
        },
        TransactionArgument::Bool(val) => {
            *val = (rand_next(rand) & 1) == 0;
        },
        TransactionArgument::Address(addr) => {
            let mut fresh: Vec<u8> = Vec::new();
            let mut i: usize = 0;
            while i < 32
                invariant
                    fresh@.len() == i,
                    i <= 32,
                decreases 32 - i,
            {
                fresh.push((rand_next(rand) % 256) as u8);
                i = i + 1;
            }
            *addr = fresh;
        },
        TransactionArgument::U8Vector(vec) => {
            let len = (rand_next(rand) % 64) as usize;
            let mut fresh: Vec<u8> = Vec::new();
            let mut i: usize = 0;
            while i < len
                invariant
                    fresh@.len() == i,
                    i <= len,
                    len < 64,
                decreases len - i,
            {
                fresh.push((rand_next(rand) & 0xFF) as u8);
                i = i + 1;
            }
            *vec = fresh;
        },
        TransactionArgument::Serialized(bytes) => {
            let len = (rand_next(rand) % 64) as usize;
            let mut fresh: Vec<u8> = Vec::new();
            let mut i: usize = 0;
            while i < len
                invariant
                    fresh@.len() == i,
                    i <= len,
                    len < 64,
                decreases len - i,
            {
                fresh.push((rand_next(rand) & 0xFF) as u8);
                i = i + 1;
            }
            *bytes = fresh;
        },
    }
    true
}

/// Mutate every argument of a compiled script, keeping the argument count
/// and each argument's shape.  A script with no arguments reports no
/// mutation.
pub fn mutate_script_args(
    script: &mut ScriptData,
    rand: &mut libafl_bolts::rands::RomuDuoJrRand,
) -> (r: bool)
    ensures
        r == (old(script).args@.len() > 0),
        final(script).args@.len() == old(script).args@.len(),
        final(script).code@ == old(script).code@,
{
    if script.args.len() == 0 {
        return false;
    }
    let n = script.args.len();
    let mut i: usize = 0;
    while i < n
        invariant
            n == script.args@.len(),
            i <= n,
            script.code@ == old(script).code@,
        decreases n - i,
    {
        let mut arg = script.args[i].clone();
        let _ = mutate_transaction_argument(&mut arg, rand);
        script.args.set(i, arg);
        i = i + 1;
    }
    true
}

/// One return slot of an earlier call, available for wiring.
#[derive(Debug)]
pub struct AvailableValue {
    pub call_idx: u16,
    pub return_idx: u16,
    pub ty: MoveType,
}

/// Every return slot of every call in the sequence whose target resolves
/// in the catalog, tagged with its position and type.
#[verifier::loop_isolation(false)]
/// The available values one call contributes: one tagged entry per return
/// slot of the first catalog entry with the call's key, or nothing when no
/// catalog entry resolves.
pub open spec fn call_avail(
    cat: Seq<PublicFunctionTarget>,
    call: SequenceCallV,
    i: nat,
) -> Seq<(u16, u16, MoveTypeV)> {
    let f = crate::state::first_match(cat, call.module, call.function);
    if f == -1 {
        Seq::empty()
    } else {
        Seq::new(
            pft_view(cat[f]).return_types.len(),
            |k: int| (i as u16, k as u16, pft_view(cat[f]).return_types[k]),
        )
    }
}

/// The available values of a whole sequence, call by call, starting at
/// call index `i`.
pub open spec fn avail_spec(
    cat: Seq<PublicFunctionTarget>,
    calls: Seq<SequenceCallV>,
    i: nat,
) -> Seq<(u16, u16, MoveTypeV)>
    decreases calls.len(),
{
    if calls.len() == 0 {
        Seq::empty()
    } else {
        call_avail(cat, calls[0], i) + avail_spec(cat, calls.drop_first(), i + 1)
    }
}

/// Every return slot of every call in the sequence whose target resolves
/// in the catalog, tagged with its position and type: exactly the
/// `avail_spec` of the sequence against the catalog.
#[verifier::loop_isolation(false)]
#[verifier::rlimit(60)]
pub fn collect_available_values(sequence: &ScriptSequence, state: &AptosFuzzerState) -> (r: Vec<
    AvailableValue,
>)
    ensures
        Seq::new(r@.len(), |p: int| av_view(r@[p])) == avail_spec(
            state.public_functions@,
            ss_view(*sequence),
            0,
        ),
        forall|p: int|
            0 <= p < r@.len() ==> ((#[trigger] r@[p]).call_idx as int) < ss_view(
                *sequence,
            ).len() && exists|f: int, k: int|
                0 <= f < state.public_functions@.len() && 0 <= k < pft_view(
                    state.public_functions@[f],
                ).return_types.len() && mt_view(r@[p].ty) == (#[trigger] pft_view(
                    state.public_functions@[f],
                ).return_types[k]) && r@[p].return_idx == k as u16,
{
    let ghost cat = state.public_functions@;
    let ghost whole = ss_view(*sequence);
    let mut values: Vec<AvailableValue> = Vec::new();
    let calls = sequence.calls();
    let mut call_idx: usize = 0;
    proof {
        assert(whole.skip(0) =~= whole);
        assert(Seq::new(values@.len(), |p: int| av_view(values@[p]))
            =~= Seq::<(u16, u16, MoveTypeV)>::empty());
    }
    while call_idx < calls.len()
        invariant
            call_idx <= calls@.len(),
            calls@.len() == whole.len(),
            avail_spec(cat, whole, 0) == Seq::new(values@.len(), |p: int| av_view(values@[p]))
                + avail_spec(cat, whole.skip(call_idx as int), call_idx as nat),
            forall|p: int|
                0 <= p < values@.len() ==> ((#[trigger] values@[p]).call_idx as int) < ss_view(
                    *sequence,
                ).len() && exists|f: int, k: int|
                    0 <= f < state.public_functions@.len() && 0 <= k < pft_view(
                        state.public_functions@[f],
                    ).return_types.len() && mt_view(values@[p].ty) == (#[trigger] pft_view(
                        state.public_functions@[f],
                    ).return_types[k]) && values@[p].return_idx == k as u16,
        decreases calls@.len() - call_idx,
    {
        proof {
            assert(whole.skip(call_idx as int).len() > 0);
            assert(whole.skip(call_idx as int)[0] == whole[call_idx as int]);
            assert(whole.skip(call_idx as int).drop_first() =~= whole.skip(call_idx + 1));
        }
        let call = &calls[call_idx];
        let ghost built_pre = Seq::new(values@.len(), |p: int| av_view(values@[p]));
        let ghost here = call_avail(cat, whole[call_idx as int], call_idx as nat);
        let found = state.public_function(&call.module, &call.function);
        match found {
            Some(function) => {
                let ghost fm = crate::state::first_match(
                    cat,
                    whole[call_idx as int].module,
                    whole[call_idx as int].function,
                );
                proof {
                    assert(call.module.view_spec() == whole[call_idx as int].module);
                    assert(call.function@ == whole[call_idx as int].function);
                    assert(0 <= fm < cat.len());
                    assert(pft_view(*function) == pft_view(cat[fm]));
                    assert(here.len() == pft_view(cat[fm]).return_types.len());
                }
                let rts = &function.return_types;
                let mut return_idx: usize = 0;
                proof {
                    assert(here.take(0) =~= Seq::<(u16, u16, MoveTypeV)>::empty());
                    assert(built_pre + here.take(0) =~= built_pre);
                }
                while return_idx < rts.len()
                    invariant
                        call_idx < calls@.len(),
                        return_idx <= rts@.len(),
                        rts@.len() == pft_view(*function).return_types.len(),
                        forall|q: int|
                            0 <= q < rts@.len() ==> mt_view(#[trigger] rts@[q]) == pft_view(
                                *function,
                            ).return_types[q],
                        here.len() == rts@.len(),
                        forall|k: int|
                            0 <= k < here.len() ==> #[trigger] here[k] == (
                                call_idx as u16,
                                k as u16,
                                pft_view(cat[fm]).return_types[k],
                            ),
                        0 <= fm < cat.len(),
                        pft_view(cat[fm]) == pft_view(*function),
                        Seq::new(values@.len(), |p: int| av_view(values@[p])) == built_pre
                            + here.take(return_idx as int),
                        forall|p: int|
                            0 <= p < values@.len() ==> ((#[trigger] values@[p]).call_idx as int)
                                < ss_view(*sequence).len() && exists|f: int, k: int|
                                0 <= f < state.public_functions@.len() && 0 <= k < pft_view(
                                    state.public_functions@[f],
                                ).return_types.len() && mt_view(values@[p].ty) == (
                                #[trigger] pft_view(
                                    state.public_functions@[f],
                                ).return_types[k]) && values@[p].return_idx == k as u16,
                    decreases rts@.len() - return_idx,
                {
                    let ghost vals_pre = values@;
                    values.push(
                        AvailableValue {
                            call_idx: call_idx as u16,
                            return_idx: return_idx as u16,
                            ty: rts[return_idx].clone(),
                        },
                    );
                    proof {
                        let p = values@.len() - 1;
                        assert(mt_view(values@[p].ty) == pft_view(cat[fm]).return_types[
                            return_idx as int]);
                        assert((values@[p].call_idx as int) < ss_view(*sequence).len());
                        assert(av_view(values@[p]) == here[return_idx as int]);
                        assert(here.take(return_idx + 1) =~= here.take(return_idx as int).push(
                            here[return_idx as int],
                        ));
                        assert(Seq::new(values@.len(), |q: int| av_view(values@[q])) =~= Seq::new(
                            vals_pre.len(),
                            |q: int| av_view(vals_pre[q]),
                        ).push(av_view(values@[p])));
                    }
                    return_idx = return_idx + 1;
                }
                proof {
                    assert(here.take(rts@.len() as int) =~= here);
                }
            },
            None => {
                proof {
                    assert(crate::state::first_match(
                        cat,
                        whole[call_idx as int].module,
                        whole[call_idx as int].function,
                    ) == -1);
                    assert(here =~= Seq::<(u16, u16, MoveTypeV)>::empty());
                    assert(built_pre + here =~= built_pre);
                }
            },
        }
        proof {
            assert(Seq::new(values@.len(), |p: int| av_view(values@[p])) == built_pre + here);
            assert(built_pre + here + avail_spec(cat, whole.skip(call_idx + 1), (call_idx
                + 1) as nat) =~= built_pre + (here + avail_spec(
                cat,
                whole.skip(call_idx + 1),
                (call_idx + 1) as nat,
            )));
        }
        call_idx = call_idx + 1;
    }
    proof {
        assert(whole.skip(call_idx as int) =~= Seq::<SequenceCallV>::empty());
        assert(Seq::new(values@.len(), |p: int| av_view(values@[p])) + Seq::<(
            u16,
            u16,
            MoveTypeV,
        )>::empty() =~= Seq::new(values@.len(), |p: int| av_view(values@[p])));
    }
    values
}

/// Build one candidate call of a catalog function.
///
/// A function with a signer parameter cannot be synthesized.  Each value
/// parameter is wired, with even odds, to a random type-matching available
/// value, or defaulted; a parameter that can be neither wired nor
/// defaulted abandons the candidate.
/// The reading of one available value.
pub open spec fn av_view(a: AvailableValue) -> (u16, u16, MoveTypeV) {
    (a.call_idx, a.return_idx, mt_view(a.ty))
}

/// How one built argument relates to its declared parameter: a raw
/// argument carries the parameter's default bytes at the parameter's type,
/// and a wired argument names a type-matching available value.
pub open spec fn arg_built_for(
    arg: SequenceArgumentV,
    param: FunctionParameterV,
    avs: Seq<(u16, u16, MoveTypeV)>,
) -> bool {
    match param {
        FunctionParameterV::Signer => false,
        FunctionParameterV::Value(t) => match arg {
            SequenceArgumentV::Raw(b, t2) => t2 == t && default_bytes_spec(t) == Some(b),
            SequenceArgumentV::PreviousResult(ci, ri) => exists|p: int|
                0 <= p < avs.len() && avs[p] == (ci, ri, t),
            SequenceArgumentV::Signer(_) => false,
        },
    }
}

pub fn build_sequence_call(
    function: &PublicFunctionTarget,
    available_values: &Vec<AvailableValue>,
    rand: &mut libafl_bolts::rands::RomuDuoJrRand,
) -> (r: Option<SequenceCall>)
    ensures
        (match r {
            Some(call) => {
                &&& sc_view(call).module == pft_view(*function).module
                &&& sc_view(call).function == pft_view(*function).name
                &&& sc_view(call).ty_args.len() == 0
                &&& sc_view(call).args.len() == pft_view(*function).parameters.len()
                &&& (forall|i: int|
                    0 <= i < pft_view(*function).parameters.len() ==> !(pft_view(
                        *function,
                    ).parameters[i] is Signer))
                &&& (forall|j: int|
                    0 <= j < sc_view(call).args.len() ==> arg_built_for(
                        #[trigger] sc_view(call).args[j],
                        pft_view(*function).parameters[j],
                        Seq::new(available_values@.len(), |p: int| av_view(available_values@[p])),
                    ))
            },
            None => exists|i: int|
                0 <= i < pft_view(*function).parameters.len() && ((#[trigger] pft_view(
                    *function,
                ).parameters[i]) is Signer || (pft_view(*function).parameters[i] matches
                FunctionParameterV::Value(t) && default_bytes_spec(t) is None)),
        }),
{
    let ghost avs = Seq::new(available_values@.len(), |p: int| av_view(available_values@[p]));
    let mut args: Vec<SequenceArgument> = Vec::new();
    let mut i: usize = 0;
    let n = function.parameters.len();
    while i < n
        invariant
            n == function.parameters@.len(),
            avs == Seq::new(
                available_values@.len(),
                |p: int| av_view(available_values@[p]),
            ),
            i <= n,
            args@.len() == i,
            forall|j: int|
                0 <= j < i ==> !((#[trigger] pft_view(*function).parameters[j]) is Signer),
            forall|j: int|
                0 <= j < args@.len() ==> arg_built_for(
                    sa_view(#[trigger] args@[j]),
                    pft_view(*function).parameters[j],
                    avs,
                ),
        decreases n - i,
    {
        match &function.parameters[i] {
            FunctionParameter::Signer => {
                proof {
                    assert(pft_view(*function).parameters[i as int] is Signer);
                }
                return None;
            },
            FunctionParameter::Value(tag) => {
                let mut match_count: usize = 0;
                let mut k: usize = 0;
                while k < available_values.len()
                    invariant
                        k <= available_values@.len(),
                        match_count <= k,
                    decreases available_values@.len() - k,
                {
                    if mt_eq(&available_values[k].ty, tag) {
                        match_count = match_count + 1;
                    }
                    k = k + 1;
                }
                let use_previous = match_count > 0 && (rand_next(rand) & 1) == 0;
                if use_previous {
                    let pick = (rand_next(rand) as usize) % match_count;
                    let mut seen: usize = 0;
                    let mut k2: usize = 0;
                    let mut chosen: Option<(u16, u16)> = None;
                    while k2 < available_values.len()
                        invariant
                            avs == Seq::new(
                                available_values@.len(),
                                |p: int| av_view(available_values@[p]),
                            ),
                            k2 <= available_values@.len(),
                            seen <= k2,
                            (chosen matches Some(c) ==> exists|p: int|
                                0 <= p < avs.len() && avs[p] == (c.0, c.1, mt_view(*tag))),
                        decreases available_values@.len() - k2,
                    {
                        if mt_eq(&available_values[k2].ty, tag) {
                            if seen == pick && chosen.is_none() {
                                chosen = Some(
                                    (
                                        available_values[k2].call_idx,
                                        available_values[k2].return_idx,
                                    ),
                                );
                                proof {
                                    assert(avs[k2 as int] == av_view(
                                        available_values@[k2 as int],
                                    ));
                                }
                            }
                            seen = seen + 1;
                        }
                        k2 = k2 + 1;
                    }
                    match chosen {
                        Some((ci, ri)) => {
                            args.push(
                                SequenceArgument::PreviousResult {
                                    call_idx: ci,
                                    return_idx: ri,
                                },
                            );
                            proof {
                                assert(arg_built_for(
                                    sa_view(args@.last()),
                                    pft_view(*function).parameters[i as int],
                                    avs,
                                ));
                            }
                        },
                        None => {
                            let bytes = default_arg_bytes(tag);
                            match bytes {
                                Some(b) => {
                                    args.push(
                                        SequenceArgument::Raw { bytes: b, ty: tag.clone() },
                                    );
                                    proof {
                                        assert(arg_built_for(
                                            sa_view(args@.last()),
                                            pft_view(*function).parameters[i as int],
                                            avs,
                                        ));
                                    }
                                },
                                None => {
                                    proof {
                                        assert((pft_view(*function).parameters[i as int] matches
                                            FunctionParameterV::Value(t) && default_bytes_spec(t)
                                            is None));
                                    }
                                    return None;
                                },
                            }
                        },
                    }
                } else {
                    let bytes = default_arg_bytes(tag);
                    match bytes {
                        Some(b) => {
                            args.push(SequenceArgument::Raw { bytes: b, ty: tag.clone() });
                            proof {
                                assert(arg_built_for(
                                    sa_view(args@.last()),
                                    pft_view(*function).parameters[i as int],
                                    avs,
                                ));
                            }
                        },
                        None => {
                            proof {
                                assert((pft_view(*function).parameters[i as int] matches
                                    FunctionParameterV::Value(t) && default_bytes_spec(t)
                                    is None));
                            }
                            return None;
                        },
                    }
                }
            },
        }
        i = i + 1;
    }
    let call = SequenceCall::new(
        function.module_id.clone(),
        function.name.clone(),
        TypeList::Nil,
        args,
    );
    proof {
        assert(crate::script_sequence::tl_view(TypeList::Nil) =~= Seq::<MoveTypeV>::empty());
    }
    Some(call)
}

/// Propose one grown candidate: the base sequence with one random,
/// buildable catalog call appended.  The caller compiles the candidate;
/// a failed build proposes nothing.
/// How one argument of a grown call reads against the catalog: a raw
/// argument carries its parameter's default bytes, and a wired argument
/// points into the base sequence at a slot whose type some catalog
/// function returns at that index.
pub open spec fn grown_arg_ok(
    arg: SequenceArgumentV,
    param: FunctionParameterV,
    base_len: nat,
    cat: Seq<PublicFunctionTarget>,
) -> bool {
    match param {
        FunctionParameterV::Signer => false,
        FunctionParameterV::Value(t) => match arg {
            SequenceArgumentV::Raw(b, t2) => t2 == t && default_bytes_spec(t) == Some(b),
            SequenceArgumentV::PreviousResult(ci, ri) => (ci as int) < base_len && exists|
                g: int,
                k: int,
            |
                0 <= g < cat.len() && 0 <= k < pft_view(cat[g]).return_types.len() && t == (
                #[trigger] pft_view(cat[g]).return_types[k]) && ri == k as u16,
            SequenceArgumentV::Signer(_) => false,
        },
    }
}

pub fn propose_sequence_candidate(
    state: &mut AptosFuzzerState,
    base: &ScriptSequence,
) -> (r: Option<ScriptSequence>)
    requires
        old(state).inv(),
    ensures
        final(state).inv(),
        final(state).public_functions@ == old(state).public_functions@,
        final(state).seen_execution_paths@ == old(state).seen_execution_paths@,
        final(state).execution_paths@ == old(state).execution_paths@,
        (match r {
            Some(grown) => {
                &&& ss_view(*base).len() + 1 == ss_view(grown).len()
                &&& ss_view(grown).take(ss_view(*base).len() as int) == ss_view(*base)
                &&& exists|f: int|
                    0 <= f < old(state).public_functions@.len() && {
                        let call = ss_view(grown).last();
                        let cf = pft_view(#[trigger] old(state).public_functions@[f]);
                        &&& call.module == cf.module
                        &&& call.function == cf.name
                        &&& call.ty_args.len() == 0
                        &&& call.args.len() == cf.parameters.len()
                        &&& (forall|j: int|
                            0 <= j < call.args.len() ==> grown_arg_ok(
                                #[trigger] call.args[j],
                                cf.parameters[j],
                                ss_view(*base).len(),
                                old(state).public_functions@,
                            ))
                    }
            },
            None => old(state).public_functions@.len() == 0 || exists|f: int|
                0 <= f < old(state).public_functions@.len() && exists|i: int|
                    0 <= i < pft_view(#[trigger] old(state).public_functions@[f]).parameters.len()
                        && ((#[trigger] pft_view(
                        old(state).public_functions@[f],
                    ).parameters[i]) is Signer || (pft_view(
                        old(state).public_functions@[f],
                    ).parameters[i] matches FunctionParameterV::Value(t) && default_bytes_spec(t)
                        is None)),
        }),
{
    let function_count = state.public_functions.len();
    if function_count == 0 {
        return None;
    }
    let available = collect_available_values(base, state);
    let idx = (rand_next(&mut state.rand) as usize) % function_count;
    let function = state.public_functions[idx].clone();
    let ghost fidx: int = idx as int;
    let call = build_sequence_call(&function, &available, &mut state.rand);
    match call {
        Some(c) => {
            let ghost cv = sc_view(c);
            let ghost avs = Seq::new(available@.len(), |p: int| av_view(available@[p]));
            let mut grown = base.clone();
            grown.push_call(c);
            proof {
                assert(ss_view(grown).take(ss_view(*base).len() as int) =~= ss_view(*base));
                let cf = pft_view(old(state).public_functions@[fidx]);
                assert(cf == pft_view(function));
                assert(ss_view(grown).last() == cv);
                assert forall|j: int| 0 <= j < cv.args.len() implies grown_arg_ok(
                    #[trigger] cv.args[j],
                    cf.parameters[j],
                    ss_view(*base).len(),
                    old(state).public_functions@,
                ) by {
                    assert(arg_built_for(cv.args[j], cf.parameters[j], avs));
                    match cf.parameters[j] {
                        FunctionParameterV::Value(t) => {
                            match cv.args[j] {
                                SequenceArgumentV::PreviousResult(ci, ri) => {
                                    let p = choose|p: int|
                                        0 <= p < avs.len() && avs[p] == (ci, ri, t);
                                    assert(avs[p] == av_view(available@[p]));
                                    assert(available@[p].call_idx == ci);
                                    assert(available@[p].return_idx == ri);
                                    assert(mt_view(available@[p].ty) == t);
                                    assert((available@[p].call_idx as int) < ss_view(
                                        *base,
                                    ).len());
                                },
                                _ => {},
                            }
                        },
                        FunctionParameterV::Signer => {},
                    }
                }
            }
            Some(grown)
        },
        None => None,
    }
}

/// How many growth candidates one mutation attempt tries.
pub fn sequence_attempts(catalog_len: usize) -> (r: usize)
    ensures
        r == (if catalog_len < 8 {
            catalog_len as int
        } else {
            8int
        }),
{
    if catalog_len < 8 {
        catalog_len
    } else {
        8
    }
}

/// Accept a compiled candidate: randomize the script's free argument
/// values, install the script as the payload and the grown sequence as its
/// provenance.
pub fn accept_compiled_sequence(
    state: &mut AptosFuzzerState,
    input: &mut AptosFuzzerInput,
    sequence: ScriptSequence,
    script: ScriptData,
) -> (r: MutationResult)
    requires
        old(state).inv(),
    ensures
        final(state).inv(),
        r == MutationResult::Mutated,
        input_view(*final(input)).sequence == Some(ss_view(sequence)),
        input_view(*final(input)).payload is Script,
        input_view(*final(input)).payload->Script_0.code == script.code@,
        input_view(*final(input)).payload->Script_0.args.len() == script.args@.len(),
{
    let mut script_mut = script;
    let _ = mutate_script_args(&mut script_mut, &mut state.rand);
    let payload = input.payload_mut();
    *payload = TransactionPayload::Script(script_mut);
    input.set_script_sequence(Some(sequence));
    MutationResult::Mutated
}

impl AptosFuzzerMutator {
    /// Mutate a direct call in place: overwrite its argument bytes.
    /// A compiled script is not remutable byte-wise here — it grows through
    /// `propose_sequence_candidate` and the sequence compiler instead — and
    /// any other payload shape reports `Skipped`.
    pub fn mutate(&self, state: &mut AptosFuzzerState, input: &mut AptosFuzzerInput) -> (r:
        MutationResult)
        requires
            old(state).inv(),
        ensures
            final(state).inv(),
            input_view(*final(input)).sequence == input_view(*old(input)).sequence,
            (input_view(*old(input)).payload is Entry ==> input_view(*final(input)).payload
                is Entry),
            (input_view(*old(input)).payload is Entry ==> (r == MutationResult::Mutated <==>
                input_view(*old(input)).payload->Entry_0.args.len() > 0)),
            (input_view(*old(input)).payload is Entry && r == MutationResult::Mutated ==> {
                let pre = input_view(*old(input)).payload->Entry_0;
                let post = input_view(*final(input)).payload->Entry_0;
                &&& post.module == pre.module
                &&& post.function == pre.function
                &&& post.ty_args == pre.ty_args
                &&& post.args.len() == pre.args.len()
                &&& (forall|i: int|
                    0 <= i < pre.args.len() && (#[trigger] pre.args[i]).len() > 0
                        ==> post.args[i].len() == pre.args[i].len())
            }),
            (input_view(*old(input)).payload is Entry && r == MutationResult::Skipped
                ==> input_view(*final(input)) == input_view(*old(input))),
            !(input_view(*old(input)).payload is Entry) ==> r == MutationResult::Skipped
                && input_view(*final(input)) == input_view(*old(input)),
    {
        let payload = input.payload_mut();
        match payload {
            TransactionPayload::EntryFunction(entry_func) => {
                let mutated = mutate_entry_function_args(entry_func, &mut state.rand);
                if mutated {
                    MutationResult::Mutated
                } else {
                    MutationResult::Skipped
                }
            },
            _ => MutationResult::Skipped,
        }
    }
}

} // verus!
