use aptos_fuzzer::analysis::{mark_struct_in_signature, FindingKind, SignatureToken};
use aptos_fuzzer::bitwise::{int_bvand_const, int_bvnot, int_bvor_const, int_bvxor_const};
use aptos_fuzzer::codec::{
    bcs_bytes_bool, bcs_bytes_empty_list, bcs_bytes_u16, bcs_bytes_u64, bcs_bytes_u8,
    bcs_parse_bool, bcs_parse_u16, bcs_parse_u64, bcs_parse_u8,
};
use aptos_fuzzer::coverage::{
    classify_exit, count_covered_segments, hash32, hash64, hash_string, reset_map,
    update_edge_coverage, ExitKind, OutcomeKind, MAP_SIZE,
};
use aptos_fuzzer::term::{eval_with_var, term_fingerprint, IntTerm};
use aptos_fuzzer::script_sequence::{
    bytes_to_transaction_argument, mt_eq, MoveType, StructTag, TransactionArgument, TypeList,
};
use aptos_fuzzer::u256::{Order, U256};

#[test]
fn mark_struct_in_signature_out_of_bounds_safe() {
    let mut used = vec![false; 2];
    let token = SignatureToken::Struct(17);
    mark_struct_in_signature(&token, &mut used);
    assert_eq!(used, vec![false; 2]);
}

#[test]
fn mark_struct_in_signature_marks_nested_handles() {
    let mut used = vec![false; 3];
    let token = SignatureToken::Vector(Box::new(SignatureToken::Struct(1)));
    mark_struct_in_signature(&token, &mut used);
    assert_eq!(used, vec![false, true, false]);
    let reference = SignatureToken::Reference(Box::new(SignatureToken::StructInstantiation(2)));
    mark_struct_in_signature(&reference, &mut used);
    assert_eq!(used, vec![false, true, true]);
}

#[test]
fn fnv_hashes_match_reference_values() {
    assert_eq!(hash64(&vec![b'a']), 0xaf63dc4c8601ec8c);
    assert_eq!(hash32(&vec![b'a']), 0xe40c292c);
    assert_eq!(hash_string("a"), 0xaf63dc4c8601ec8c);
    assert_eq!(hash64(&Vec::new()), 0xcbf29ce484222325);
}

#[test]
fn exit_classification_table() {
    assert_eq!(classify_exit(true, &OutcomeKind::Success, false), ExitKind::Pass);
    assert_eq!(classify_exit(true, &OutcomeKind::Success, true), ExitKind::Crash);
    assert_eq!(classify_exit(false, &OutcomeKind::MoveAbort, false), ExitKind::Pass);
    assert_eq!(classify_exit(false, &OutcomeKind::OutOfGas, false), ExitKind::Pass);
    assert_eq!(classify_exit(false, &OutcomeKind::OtherError, false), ExitKind::Pass);
    assert_eq!(classify_exit(false, &OutcomeKind::InvariantViolation, false), ExitKind::Crash);
    assert_eq!(classify_exit(false, &OutcomeKind::Panic, false), ExitKind::Crash);
    assert_eq!(classify_exit(false, &OutcomeKind::MoveAbort, true), ExitKind::Crash);
}

#[test]
fn coverage_reset_and_monotone_cumulative() {
    let mut map = vec![1u8; MAP_SIZE];
    reset_map(&mut map);
    assert!(map.iter().all(|&b| b == 0));

    let mut cumulative = vec![0u8; MAP_SIZE];
    let mut prev: u64 = 0;
    update_edge_coverage(&mut map, &mut cumulative, &mut prev, 0x1234, &vec![1, 2, 3]);
    let touched: Vec<usize> = (0..MAP_SIZE).filter(|&i| map[i] != 0).collect();
    assert!(!touched.is_empty());
    assert!(touched.len() <= 3);
    // untouched per-run slots stay zero
    assert_eq!((0..MAP_SIZE).filter(|&i| map[i] != 0).count(), touched.len());
    let cum_before: Vec<usize> = (0..MAP_SIZE).filter(|&i| cumulative[i] != 0).collect();
    assert_eq!(cum_before, touched);

    // a second run with another trace never un-sets a cumulative bit
    reset_map(&mut map);
    let mut prev2: u64 = 0;
    update_edge_coverage(&mut map, &mut cumulative, &mut prev2, 0x9999, &vec![7, 8]);
    for i in &cum_before {
        assert!(cumulative[*i] != 0);
    }
}

#[test]
fn covered_segment_count_is_exact() {
    let mut map = vec![0u8; 10];
    map[5] = 3;
    assert_eq!(count_covered_segments(&map, 4), 1);
    map[0] = 1;
    assert_eq!(count_covered_segments(&map, 4), 2);
    assert_eq!(count_covered_segments(&vec![0u8; 10], 4), 0);
}

#[test]
fn u256_ordering_and_truncation() {
    let five = U256::from_u64(5);
    let seven = U256::from_u64(7);
    assert_eq!(five.cmp(&seven), Order::Less);
    assert_eq!(seven.cmp(&five), Order::Greater);
    assert_eq!(five.cmp(&U256::from_u64(5)), Order::Equal);

    let v = U256::from_u64(0x1ff);
    assert_eq!(v.truncate(8).cmp(&U256::from_u64(0xff)), Order::Equal);
    assert_eq!(U256::zero().complement(8).cmp(&U256::from_u64(255)), Order::Equal);

    let mut bytes = vec![0u8; 32];
    bytes[0] = 1;
    bytes[1] = 2;
    assert_eq!(U256::from_le_bytes(&bytes).cmp(&U256::from_u64(0x0201)), Order::Equal);
    assert_eq!(U256::from_u64(12345).to_u64(), 12345);
    assert_eq!(U256::from_u64_words(1, 1, 0, 0).to_u128(), 1 + (1u128 << 64));
}

#[test]
fn byte_codec_is_canonical() {
    assert_eq!(bcs_bytes_bool(true), vec![1]);
    assert_eq!(bcs_bytes_bool(false), vec![0]);
    assert_eq!(bcs_bytes_u8(0xab), vec![0xab]);
    assert_eq!(bcs_bytes_u16(0x0201), vec![1, 2]);
    assert_eq!(bcs_bytes_u64(0x0807060504030201), vec![1, 2, 3, 4, 5, 6, 7, 8]);
    assert_eq!(bcs_bytes_empty_list(), vec![0]);

    assert_eq!(bcs_parse_bool(&vec![1]), Some(true));
    assert_eq!(bcs_parse_bool(&vec![0]), Some(false));
    assert_eq!(bcs_parse_bool(&vec![2]), None);
    assert_eq!(bcs_parse_u8(&vec![9]), Some(9));
    assert_eq!(bcs_parse_u8(&vec![9, 0]), None);
    assert_eq!(bcs_parse_u16(&vec![1, 2]), Some(0x0201));
    assert_eq!(bcs_parse_u64(&vec![1, 2, 3, 4, 5, 6, 7, 8]), Some(0x0807060504030201));
    assert_eq!(bcs_parse_u64(&vec![1, 2, 3]), None);
}

#[test]
fn finding_kind_names() {
    assert_eq!(FindingKind::BoolJudgement.as_str(), "UnnecessaryBoolComparison");
    assert_eq!(FindingKind::InfiniteLoop.as_str(), "PotentialInfiniteLoop");
    assert_eq!(FindingKind::PrecisionLoss.as_str(), "PrecisionLoss");
    assert_eq!(FindingKind::UnusedStruct.as_str(), "UnusedStruct");
}

#[test]
fn term_fingerprints_are_deterministic() {
    let a1 = IntTerm::Var(1);
    let a2 = IntTerm::Var(1);
    let b = IntTerm::Var(2);
    assert_eq!(term_fingerprint(&a1), term_fingerprint(&a2));
    assert_ne!(term_fingerprint(&a1), term_fingerprint(&b));
    let sum1 = IntTerm::Add(Box::new(IntTerm::Var(1)), Box::new(IntTerm::Var(2)));
    let sum2 = IntTerm::Add(Box::new(IntTerm::Var(1)), Box::new(IntTerm::Var(2)));
    assert_eq!(term_fingerprint(&sum1), term_fingerprint(&sum2));
}

#[test]
fn bitwise_and_emulation_is_exact_at_width_8() {
    for mask in 0u64..256 {
        let t = int_bvand_const(&IntTerm::Var(0), &U256::from_u64(mask), 8);
        for x in 0u64..256 {
            let got = eval_with_var(&t, 0, x as u128).expect("evaluation stays in range");
            assert_eq!(got, (x & mask) as u128);
        }
    }
}

#[test]
fn bitwise_or_emulation_is_exact_at_width_8() {
    for mask in 0u64..256 {
        let t = int_bvor_const(&IntTerm::Var(0), &U256::from_u64(mask), 8);
        for x in 0u64..256 {
            let got = eval_with_var(&t, 0, x as u128).expect("evaluation stays in range");
            assert_eq!(got, (x | mask) as u128);
        }
    }
}

#[test]
fn bitwise_xor_emulation_is_exact_at_width_8() {
    for mask in 0u64..256 {
        let t = int_bvxor_const(&IntTerm::Var(0), &U256::from_u64(mask), 8);
        for x in 0u64..256 {
            let got = eval_with_var(&t, 0, x as u128).expect("evaluation stays in range");
            assert_eq!(got, (x ^ mask) as u128);
        }
    }
}

#[test]
fn bitwise_not_emulation_is_exact_at_width_8() {
    let t = int_bvnot(&IntTerm::Var(0), 8);
    for x in 0u64..256 {
        let got = eval_with_var(&t, 0, x as u128).expect("evaluation stays in range");
        assert_eq!(got, (!(x as u8)) as u128);
    }
}

#[test]
fn bitwise_emulation_sampled_at_width_64() {
    let samples: [u64; 6] = [0, 1, 0xff00ff00ff00ff00, 0x0123456789abcdef, u64::MAX, 0x8000000000000001];
    for &mask in &samples {
        let and_t = int_bvand_const(&IntTerm::Var(0), &U256::from_u64(mask), 64);
        let or_t = int_bvor_const(&IntTerm::Var(0), &U256::from_u64(mask), 64);
        let xor_t = int_bvxor_const(&IntTerm::Var(0), &U256::from_u64(mask), 64);
        for &x in &samples {
            assert_eq!(eval_with_var(&and_t, 0, x as u128), Some((x & mask) as u128));
            assert_eq!(eval_with_var(&or_t, 0, x as u128), Some((x | mask) as u128));
            assert_eq!(eval_with_var(&xor_t, 0, x as u128), Some((x ^ mask) as u128));
        }
    }
    let not_t = int_bvnot(&IntTerm::Var(0), 64);
    for &x in &samples {
        assert_eq!(eval_with_var(&not_t, 0, x as u128), Some((!x) as u128));
    }
}

#[test]
fn raw_argument_decoding_follows_the_declared_type() {
    let u64_bytes = vec![1u8, 0, 0, 0, 0, 0, 0, 0];
    match bytes_to_transaction_argument(&MoveType::U64, &u64_bytes) {
        Some(TransactionArgument::U64(v)) => assert_eq!(v, 1),
        _ => panic!("expected a u64"),
    }
    assert!(bytes_to_transaction_argument(&MoveType::U64, &vec![1, 2]).is_none());
    match bytes_to_transaction_argument(&MoveType::Bool, &vec![1]) {
        Some(TransactionArgument::Bool(v)) => assert!(v),
        _ => panic!("expected a bool"),
    }
    assert!(bytes_to_transaction_argument(&MoveType::Bool, &vec![7]).is_none());
    let vec_bytes = vec![3u8, 9, 9, 9];
    match bytes_to_transaction_argument(&MoveType::Vector(Box::new(MoveType::U8)), &vec_bytes) {
        Some(TransactionArgument::U8Vector(v)) => assert_eq!(v, vec![9, 9, 9]),
        _ => panic!("expected a byte vector"),
    }
    assert!(bytes_to_transaction_argument(
        &MoveType::Vector(Box::new(MoveType::U8)),
        &vec![3, 9],
    )
    .is_none());
    let addr = vec![0u8; 32];
    match bytes_to_transaction_argument(&MoveType::Address, &addr) {
        Some(TransactionArgument::Address(v)) => assert_eq!(v.len(), 32),
        _ => panic!("expected an address"),
    }
    match bytes_to_transaction_argument(&MoveType::Signer, &vec![1, 2, 3]) {
        Some(TransactionArgument::Serialized(v)) => assert_eq!(v, vec![1, 2, 3]),
        _ => panic!("expected opaque bytes"),
    }
}

#[test]
fn type_equality_is_structural() {
    assert!(mt_eq(&MoveType::U64, &MoveType::U64));
    assert!(!mt_eq(&MoveType::U64, &MoveType::U32));
    let v1 = MoveType::Vector(Box::new(MoveType::U8));
    let v2 = MoveType::Vector(Box::new(MoveType::U8));
    let v3 = MoveType::Vector(Box::new(MoveType::U16));
    assert!(mt_eq(&v1, &v2));
    assert!(!mt_eq(&v1, &v3));
    let s1 = MoveType::Struct(Box::new(StructTag {
        address: vec![0; 32],
        module: "m".to_string(),
        name: "T".to_string(),
        type_args: TypeList::Nil,
    }));
    let s2 = MoveType::Struct(Box::new(StructTag {
        address: vec![0; 32],
        module: "m".to_string(),
        name: "T".to_string(),
        type_args: TypeList::Nil,
    }));
    let s3 = MoveType::Struct(Box::new(StructTag {
        address: vec![0; 32],
        module: "m".to_string(),
        name: "U".to_string(),
        type_args: TypeList::Nil,
    }));
    assert!(mt_eq(&s1, &s2));
    assert!(!mt_eq(&s1, &s3));
}
