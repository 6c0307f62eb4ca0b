use aptos_fuzzer::concolic::{
    ConcolicState, Instr, InstrContext, RuntimeIssueKind, SymbolValue, SymbolicMoveTracer,
};
use aptos_fuzzer::coverage::{
    any_lost_bits, base_id_for_entry, base_id_for_script, classify_exit, hash64, reset_map,
    update_edge_coverage, ExitKind, OutcomeKind, MAP_SIZE,
};
use aptos_fuzzer::mutator::{
    accept_compiled_sequence, mutate_byte_vector, propose_sequence_candidate, sequence_attempts,
    AptosFuzzerMutator, MutationResult,
};
use aptos_fuzzer::objective::{AbortCodeObjective, ShiftOverflowObjective};
use aptos_fuzzer::rng::rand_with_seed;
use aptos_fuzzer::script_sequence::{
    collect_txn_args, ModuleRef, MoveType, ScriptSequence, SequenceArgument, SequenceCall,
    TransactionArgument, TypeList,
};
use aptos_fuzzer::state::{
    default_arg_bytes, entry_payload_from_function, is_dependency_path, payload_supported,
    AptosFuzzerInput, AptosFuzzerState, EntryFunctionData, FunctionParameter,
    PublicFunctionTarget, ScriptData, TransactionPayload,
};
use aptos_fuzzer::term::IntTerm;
use aptos_fuzzer::u256::U256;
use aptos_fuzzer::values::RuntimeValue;

fn module(name: &str) -> ModuleRef {
    ModuleRef { address: vec![0; 32], name: name.to_string() }
}

fn ctx(instr: Instr, pc: u16, operands: Vec<RuntimeValue>) -> InstrContext {
    InstrContext {
        instruction: instr,
        pc,
        operands,
        extra: None,
        module: "0x1::m".to_string(),
        function: "f".to_string(),
    }
}

#[test]
fn path_id_is_deterministic_and_pins_known_values() {
    let trace = vec![1u32, 2, 3];
    let a = AptosFuzzerState::compute_execution_path_id(&trace);
    let b = AptosFuzzerState::compute_execution_path_id(&vec![1, 2, 3]);
    assert_eq!(a, b);
    assert_eq!(AptosFuzzerState::compute_execution_path_id(&Vec::new()), 0xcbf29ce484222325);
    assert_ne!(a, AptosFuzzerState::compute_execution_path_id(&vec![1, 2, 4]));
}

#[test]
fn infinite_loop_detector_fires_exactly_on_the_thousandth_repeat() {
    let mut st = ConcolicState::new();
    for round in 1..=1000u32 {
        st.stack = vec![SymbolValue::Value(IntTerm::Var(7))];
        let c = ctx(Instr::BrTrue, 5, vec![RuntimeValue::Bool(true)]);
        let _ = st.before_instruction(&c);
        let issues = st.take_issues();
        if round < 1000 {
            assert!(issues.is_empty(), "fired early at round {round}");
        } else {
            assert_eq!(issues.len(), 1);
            assert_eq!(issues[0].kind, RuntimeIssueKind::InfiniteLoop);
            assert_eq!(issues[0].pc, 5);
        }
    }
}

#[test]
fn infinite_loop_counter_resets_on_a_changed_hash() {
    let mut st = ConcolicState::new();
    for _ in 0..999 {
        st.stack = vec![SymbolValue::Value(IntTerm::Var(7))];
        let _ = st.before_instruction(&ctx(Instr::BrTrue, 5, vec![RuntimeValue::Bool(true)]));
    }
    // a different condition resets the counter
    st.stack = vec![SymbolValue::Value(IntTerm::Var(8))];
    let _ = st.before_instruction(&ctx(Instr::BrTrue, 5, vec![RuntimeValue::Bool(true)]));
    for _ in 0..999 {
        st.stack = vec![SymbolValue::Value(IntTerm::Var(7))];
        let _ = st.before_instruction(&ctx(Instr::BrTrue, 5, vec![RuntimeValue::Bool(true)]));
    }
    assert!(st.take_issues().is_empty());
    st.stack = vec![SymbolValue::Value(IntTerm::Var(7))];
    let _ = st.before_instruction(&ctx(Instr::BrTrue, 5, vec![RuntimeValue::Bool(true)]));
    let issues = st.take_issues();
    assert_eq!(issues.len(), 1);
    assert_eq!(issues[0].kind, RuntimeIssueKind::InfiniteLoop);
}

#[test]
fn division_into_multiplication_reports_one_precision_loss() {
    let mut st = ConcolicState::new();
    st.stack = vec![
        SymbolValue::Value(IntTerm::Var(1)),
        SymbolValue::Value(IntTerm::Var(2)),
    ];
    let r = st.before_instruction(&ctx(
        Instr::Div,
        7,
        vec![RuntimeValue::U64(6), RuntimeValue::U64(3)],
    ));
    assert!(r.is_none());
    assert!(st.take_issues().is_empty());
    st.stack.push(SymbolValue::Value(IntTerm::Var(3)));
    let _ = st.before_instruction(&ctx(
        Instr::Mul,
        42,
        vec![RuntimeValue::U64(2), RuntimeValue::U64(5)],
    ));
    let issues = st.take_issues();
    assert_eq!(issues.len(), 1);
    assert_eq!(issues[0].kind, RuntimeIssueKind::PrecisionLoss);
    assert_eq!(issues[0].pc, 42);
    assert_eq!(issues[0].module, "0x1::m");
    assert_eq!(issues[0].function, "f");
    assert_eq!(issues[0].message, "Precision loss detected at 0x1::m::f");
}

#[test]
fn concrete_comparison_reports_bool_judgement() {
    let mut st = ConcolicState::new();
    st.stack = vec![
        SymbolValue::Value(IntTerm::Const(U256::from_u64(2))),
        SymbolValue::Value(IntTerm::Const(U256::from_u64(2))),
    ];
    let r = st.before_instruction(&ctx(
        Instr::Eq,
        9,
        vec![RuntimeValue::U64(2), RuntimeValue::U64(2)],
    ));
    assert!(r.is_some());
    let issues = st.take_issues();
    assert_eq!(issues.len(), 1);
    assert_eq!(issues[0].kind, RuntimeIssueKind::BoolJudgement);
    assert_eq!(issues[0].pc, 9);
}

#[test]
fn tracer_resets_between_runs() {
    let mut tracer = SymbolicMoveTracer::new();
    tracer.state_mut().stack = vec![SymbolValue::Unknown];
    tracer.reset();
    assert_eq!(tracer.state().stack.len(), 0);
    assert!(tracer.take_issues().is_empty());
}

#[test]
fn defaulted_u64_entry_function_is_seeded() {
    let f = PublicFunctionTarget {
        module_id: module("demo"),
        name: "touch".to_string(),
        parameters: vec![FunctionParameter::Value(MoveType::U64)],
        return_types: vec![],
        is_entry: true,
    };
    let mut state = AptosFuzzerState::new(0, vec![module("demo")], vec![f]);
    let seeds = state.take_initial_inputs();
    assert_eq!(seeds.len(), 1);
    match seeds[0].payload() {
        TransactionPayload::EntryFunction(e) => {
            assert_eq!(e.function, "touch");
            assert_eq!(e.args, vec![vec![0u8; 8]]);
        },
        _ => panic!("expected an entry-function seed"),
    }
}

#[test]
fn signer_only_functions_are_not_seeded_with_values() {
    let f = PublicFunctionTarget {
        module_id: module("demo"),
        name: "init".to_string(),
        parameters: vec![FunctionParameter::Signer],
        return_types: vec![],
        is_entry: true,
    };
    let payload = entry_payload_from_function(&f).expect("signers carry no serialized argument");
    match payload {
        TransactionPayload::EntryFunction(e) => assert!(e.args.is_empty()),
        _ => panic!("expected an entry payload"),
    }
}

#[test]
fn unseedable_parameter_type_skips_the_function() {
    let f = PublicFunctionTarget {
        module_id: module("demo"),
        name: "take_signer_vec".to_string(),
        parameters: vec![FunctionParameter::Value(MoveType::Signer)],
        return_types: vec![],
        is_entry: true,
    };
    assert!(entry_payload_from_function(&f).is_none());
    assert!(default_arg_bytes(&MoveType::Signer).is_none());
    assert_eq!(default_arg_bytes(&MoveType::Vector(Box::new(MoveType::U8))), Some(vec![0]));
}

#[test]
fn provenance_is_first_writer_wins_and_solutions_dedup_by_path() {
    let mut state = AptosFuzzerState::new(0, vec![], vec![]);
    let input_a = AptosFuzzerInput::new(TransactionPayload::Other);
    let input_b = AptosFuzzerInput::new(TransactionPayload::Other);
    state.set_current_execution_path(vec![1, 2, 3]);
    let id = state.record_current_execution_path_for(&input_a).unwrap();
    let again = state.record_current_execution_path_for(&input_b).unwrap();
    assert_eq!(id, again);
    assert_eq!(state.take_solutions().len(), 1);
    assert_eq!(state.get_solution_execution_path(id), Some(vec![1, 2, 3]));
    assert_eq!(state.get_solution_execution_path_id(id), Some(id));
    state.set_current_execution_path(vec![9]);
    let id2 = state.record_current_execution_path_for(&input_b).unwrap();
    assert_ne!(id, id2);
    assert_eq!(state.take_solutions().len(), 2);
}

#[test]
fn objective_checks_deduplicate_by_path_id() {
    let mut state = AptosFuzzerState::new(0, vec![], vec![]);
    let input = AptosFuzzerInput::new(TransactionPayload::Other);
    let objective = AbortCodeObjective::new();
    state.set_current_execution_path(vec![4, 4, 4]);
    assert!(objective.is_interesting(&mut state, &input, ExitKind::Crash, None));
    // the same path id can satisfy at most one check
    state.set_current_execution_path(vec![4, 4, 4]);
    assert!(!objective.is_interesting(&mut state, &input, ExitKind::Crash, None));
    let shift = ShiftOverflowObjective::new();
    assert!(!shift.is_interesting(&mut state, &input, true));
    state.set_current_execution_path(vec![5]);
    assert!(shift.is_interesting(&mut state, &input, true));
    assert!(!shift.is_interesting(&mut state, &input, true));
    assert!(!shift.is_interesting(&mut state, &input, false));
}

#[test]
fn abort_code_allow_list_is_respected() {
    let mut state = AptosFuzzerState::new(0, vec![], vec![]);
    let input = AptosFuzzerInput::new(TransactionPayload::Other);
    let objective = AbortCodeObjective::with_target_codes(&vec![17]);
    state.set_current_execution_path(vec![1]);
    assert!(!objective.is_interesting(&mut state, &input, ExitKind::Pass, Some(99)));
    assert!(objective.is_interesting(&mut state, &input, ExitKind::Pass, Some(17)));
    let any = AbortCodeObjective::new();
    state.set_current_execution_path(vec![2]);
    assert!(any.is_interesting(&mut state, &input, ExitKind::Pass, Some(99)));
    state.set_current_execution_path(vec![3]);
    assert!(!any.is_interesting(&mut state, &input, ExitKind::Pass, None));
}

#[test]
fn mutating_three_times_keeps_length_and_changes_bytes() {
    let entry = EntryFunctionData {
        module: module("demo"),
        function: "touch".to_string(),
        ty_args: TypeList::Nil,
        args: vec![vec![1, 2, 3, 4]],
    };
    let mut input = AptosFuzzerInput::new(TransactionPayload::EntryFunction(entry));
    let mut state = AptosFuzzerState::new(7, vec![], vec![]);
    let mutator = AptosFuzzerMutator::new();
    let mut changed = false;
    for _ in 0..3 {
        assert_eq!(mutator.mutate(&mut state, &mut input), MutationResult::Mutated);
        match input.payload() {
            TransactionPayload::EntryFunction(e) => {
                assert_eq!(e.args.len(), 1);
                assert_eq!(e.args[0].len(), 4);
                if e.args[0] != vec![1, 2, 3, 4] {
                    changed = true;
                }
            },
            _ => panic!("payload shape changed"),
        }
    }
    assert!(changed);
}

#[test]
fn empty_argument_gets_a_fresh_small_length() {
    let mut rand = rand_with_seed(3);
    let mut bytes: Vec<u8> = Vec::new();
    assert!(mutate_byte_vector(&mut bytes, &mut rand));
    assert!(1 <= bytes.len() && bytes.len() <= 16);
    let mut nonempty = vec![9u8; 5];
    assert!(mutate_byte_vector(&mut nonempty, &mut rand));
    assert_eq!(nonempty.len(), 5);
}

#[test]
fn non_entry_payload_is_skipped() {
    let mut state = AptosFuzzerState::new(0, vec![], vec![]);
    let mut input = AptosFuzzerInput::new(TransactionPayload::Other);
    let mutator = AptosFuzzerMutator::new();
    assert_eq!(mutator.mutate(&mut state, &mut input), MutationResult::Skipped);
}

#[test]
fn growing_wires_a_matching_previous_result() {
    // call 2's only parameter type matches call 1's sole return type
    let producer = PublicFunctionTarget {
        module_id: module("demo"),
        name: "make".to_string(),
        parameters: vec![],
        return_types: vec![MoveType::U64],
        is_entry: false,
    };
    let consumer = PublicFunctionTarget {
        module_id: module("demo"),
        name: "use_it".to_string(),
        parameters: vec![FunctionParameter::Value(MoveType::U64)],
        return_types: vec![],
        is_entry: false,
    };
    assert_eq!(sequence_attempts(2), 2);
    assert_eq!(sequence_attempts(100), 8);
    let mut state = AptosFuzzerState::new(11, vec![module("demo")], vec![producer, consumer]);
    let mut base = ScriptSequence::new();
    base.push_call(SequenceCall::new(
        module("demo"),
        "make".to_string(),
        TypeList::Nil,
        vec![],
    ));
    let mut wired = false;
    for _ in 0..8 {
        if let Some(grown) = propose_sequence_candidate(&mut state, &base) {
            let calls = grown.calls();
            let appended = &calls[calls.len() - 1];
            for arg in appended.args().iter() {
                if let SequenceArgument::PreviousResult { call_idx, return_idx } = arg {
                    assert_eq!((*call_idx, *return_idx), (0, 0));
                    wired = true;
                }
            }
            if wired {
                break;
            }
        }
    }
    assert!(wired, "no candidate wired the matching previous result within 8 attempts");
}

#[test]
fn defaulted_seed_runs_clean_through_the_feedback_path() {
    // a module with one entry function taking a single unsigned 64-bit
    // parameter, seeded with argument zero
    let f = PublicFunctionTarget {
        module_id: module("demo"),
        name: "touch".to_string(),
        parameters: vec![FunctionParameter::Value(MoveType::U64)],
        return_types: vec![],
        is_entry: true,
    };
    let mut state = AptosFuzzerState::new(1, vec![module("demo")], vec![f]);
    let seeds = state.take_initial_inputs();
    assert_eq!(seeds.len(), 1);
    // the engine that would run the seed is not linked here; a successful
    // run classifies as a pass, its trace fills the per-run bitmap, and the
    // shift-overflow flag stays off
    assert_eq!(classify_exit(true, &OutcomeKind::Success, false), ExitKind::Pass);
    let mut map = vec![0u8; MAP_SIZE];
    let mut cumulative = vec![0u8; MAP_SIZE];
    reset_map(&mut map);
    let mut prev: u64 = 0;
    update_edge_coverage(&mut map, &mut cumulative, &mut prev, 0x77, &vec![0, 1, 2, 3]);
    assert!(map.iter().any(|&b| b != 0));
    let shift = ShiftOverflowObjective::new();
    state.set_current_execution_path(vec![0, 1, 2, 3]);
    let input = AptosFuzzerInput::new(TransactionPayload::Other);
    assert!(!shift.is_interesting(&mut state, &input, false));
}

#[test]
fn accepted_compiled_sequence_replaces_payload_and_provenance() {
    let mut state = AptosFuzzerState::new(5, vec![], vec![]);
    let mut input = AptosFuzzerInput::new(TransactionPayload::Other);
    let mut sequence = ScriptSequence::new();
    sequence.push_call(SequenceCall::new(
        module("demo"),
        "make".to_string(),
        TypeList::Nil,
        vec![],
    ));
    let script = ScriptData {
        code: vec![0xca, 0xfe],
        ty_args: TypeList::Nil,
        args: vec![TransactionArgument::U64(0), TransactionArgument::Bool(false)],
    };
    let r = accept_compiled_sequence(&mut state, &mut input, sequence, script);
    assert_eq!(r, MutationResult::Mutated);
    match input.payload() {
        TransactionPayload::Script(s) => {
            assert_eq!(s.code, vec![0xca, 0xfe]);
            assert_eq!(s.args.len(), 2);
            assert!(matches!(s.args[0], TransactionArgument::U64(_)));
            assert!(matches!(s.args[1], TransactionArgument::Bool(_)));
        },
        _ => panic!("expected a script payload"),
    }
    assert!(input.script_sequence().is_some());
}

#[test]
fn sequence_argument_collection_flattens_raw_values() {
    let mut sequence = ScriptSequence::new();
    sequence.push_call(SequenceCall::new(
        module("demo"),
        "a".to_string(),
        TypeList::Nil,
        vec![
            SequenceArgument::Raw { bytes: vec![1, 0, 0, 0, 0, 0, 0, 0], ty: MoveType::U64 },
            SequenceArgument::Signer(0),
        ],
    ));
    sequence.push_call(SequenceCall::new(
        module("demo"),
        "b".to_string(),
        TypeList::Nil,
        vec![
            SequenceArgument::PreviousResult { call_idx: 0, return_idx: 0 },
            SequenceArgument::Raw { bytes: vec![1], ty: MoveType::Bool },
        ],
    ));
    let args = collect_txn_args(&sequence).expect("all raw arguments decode");
    assert_eq!(args.len(), 2);
    assert!(matches!(args[0], TransactionArgument::U64(1)));
    assert!(matches!(args[1], TransactionArgument::Bool(true)));

    let mut bad = ScriptSequence::new();
    bad.push_call(SequenceCall::new(
        module("demo"),
        "c".to_string(),
        TypeList::Nil,
        vec![SequenceArgument::Raw { bytes: vec![1, 2], ty: MoveType::U64 }],
    ));
    assert!(collect_txn_args(&bad).is_none());
}

#[test]
fn boundary_helpers_compute_plain_values() {
    let addr = vec![7u8; 32];
    let mut buf = addr.clone();
    buf.extend_from_slice("demo".as_bytes());
    buf.extend_from_slice("touch".as_bytes());
    assert_eq!(base_id_for_entry(&addr, "demo", "touch"), hash64(&buf));
    assert_ne!(base_id_for_entry(&addr, "demo", "touch"), base_id_for_entry(&addr, "demo", "poke"));
    assert_eq!(base_id_for_script(&vec![0xca, 0xfe]), hash64(&vec![0xca, 0xfe]));

    assert!(!any_lost_bits(&vec![false, false]));
    assert!(any_lost_bits(&vec![false, true, false]));
    assert!(!any_lost_bits(&Vec::new()));

    assert!(is_dependency_path(&vec!["build".to_string(), "dependencies".to_string()]));
    assert!(!is_dependency_path(&vec!["build".to_string(), "modules".to_string()]));

    assert!(payload_supported(&TransactionPayload::Other) == false);
    let entry = TransactionPayload::EntryFunction(EntryFunctionData {
        module: module("demo"),
        function: "touch".to_string(),
        ty_args: TypeList::Nil,
        args: vec![],
    });
    assert!(payload_supported(&entry));
}

#[test]
fn corpus_and_solutions_deduplicate_by_value() {
    let mut state = AptosFuzzerState::new(0, vec![], vec![]);
    let make = || {
        AptosFuzzerInput::new(TransactionPayload::EntryFunction(EntryFunctionData {
            module: module("demo"),
            function: "touch".to_string(),
            ty_args: TypeList::Nil,
            args: vec![vec![1, 2]],
        }))
    };
    state.add_solution(make());
    state.add_solution(make());
    assert_eq!(state.solutions.len(), 1);
    let other = AptosFuzzerInput::new(TransactionPayload::EntryFunction(EntryFunctionData {
        module: module("demo"),
        function: "touch".to_string(),
        ty_args: TypeList::Nil,
        args: vec![vec![1, 3]],
    }));
    state.add_solution(other);
    assert_eq!(state.solutions.len(), 2);
    state.add_corpus_input(make());
    state.add_corpus_input(make());
    assert_eq!(state.corpus.len(), 1);
}

#[test]
fn signer_only_catalog_never_proposes() {
    let f = PublicFunctionTarget {
        module_id: module("demo"),
        name: "needs_signer".to_string(),
        parameters: vec![FunctionParameter::Signer],
        return_types: vec![],
        is_entry: false,
    };
    let mut state = AptosFuzzerState::new(3, vec![module("demo")], vec![f]);
    let base = ScriptSequence::new();
    for _ in 0..8 {
        assert!(propose_sequence_candidate(&mut state, &base).is_none());
    }
    let mut empty_state = AptosFuzzerState::new(3, vec![], vec![]);
    assert!(propose_sequence_candidate(&mut empty_state, &base).is_none());
}
