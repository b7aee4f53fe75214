use compiler_tester::registry::{ContractRegistry, EncodingMode};
use compiler_tester::storage::{storage_delta, Storage, StorageKey};
use compiler_tester::words::{deployer_address, word_from_low_u64, word_zero};

fn addr(last: u8) -> Vec<u8> {
    let mut a = vec![0u8; 20];
    a[0] = 0x11;
    a[19] = last;
    a
}

fn key(a: u8, slot: u64) -> StorageKey {
    StorageKey { address: addr(a), slot: word_from_low_u64(slot) }
}

#[test]
fn absent_key_reads_as_zero() {
    let s = Storage::new();
    assert_eq!(s.read(&key(1, 0)), vec![0u8; 32]);
}

#[test]
fn newest_insert_wins_reads() {
    let mut s = Storage::new();
    s.insert(key(1, 7), word_from_low_u64(10));
    assert_eq!(s.read(&key(1, 7)), word_from_low_u64(10));
    assert_eq!(s.read(&key(1, 8)), word_zero());
}

#[test]
fn delta_holds_exactly_the_changed_cells() {
    let mut initial = Storage::new();
    initial.insert(key(1, 1), word_from_low_u64(5));
    initial.insert(key(1, 2), word_from_low_u64(6));

    let mut touched = Storage::new();
    // unchanged: must not appear
    touched.insert(key(1, 1), word_from_low_u64(5));
    // changed: must appear with the post-run value
    touched.insert(key(1, 2), word_from_low_u64(60));
    // zero written to an absent key: reads back as the implicit zero,
    // so it is not a change
    touched.insert(key(1, 3), word_zero());
    // nonzero written to an absent key: a change from implicit zero
    touched.insert(key(1, 4), word_from_low_u64(4));

    let delta = storage_delta(&initial, &touched);
    assert_eq!(delta.entries.len(), 2);
    assert_eq!(delta.read(&key(1, 2)), word_from_low_u64(60));
    assert_eq!(delta.read(&key(1, 4)), word_from_low_u64(4));
    // an unmodified key reads as zero in the delta, i.e. is absent
    assert_eq!(delta.read(&key(1, 1)), word_zero());
    assert_eq!(delta.read(&key(1, 3)), word_zero());
}

#[test]
fn registry_lookup_finds_newest_body() {
    let mut reg = ContractRegistry::new();
    let h = word_from_low_u64(42);
    let old_body = vec![word_from_low_u64(1)];
    let new_body = vec![word_from_low_u64(2)];
    reg.insert(h.clone(), old_body);
    reg.insert(h.clone(), new_body.clone());
    assert_eq!(reg.get(&h), Some(new_body));
    assert_eq!(reg.get(&word_from_low_u64(43)), None);
}

#[test]
fn registration_hash_matches_the_outside_hasher() {
    let mut body = vec![0u8; 32];
    body[5] = 0xab;
    let code = vec![body.clone()];
    let mut reg = ContractRegistry::new();
    reg.register_contracts(&vec![code.clone()], EncodingMode::Testing)
        .expect("hashable");
    let arrays: Vec<[u8; 32]> = code.iter().map(|w| <[u8; 32]>::try_from(w.as_slice()).unwrap()).collect();
    let direct = zkevm_opcode_defs::bytecode_to_code_hash_for_mode::<
        16,
        zkevm_opcode_defs::decoding::EncodingModeTesting,
    >(&arrays)
    .expect("hashable");
    assert_eq!(reg.entries[0].0, direct.to_vec());
    // the hash is not the input handed back
    assert_ne!(reg.entries[0].0, body);
    assert_eq!(reg.get(&direct.to_vec()), Some(code));
}

#[test]
fn production_and_testing_limits_differ() {
    // 65537 words is odd, above the production limit but within testing
    let word = vec![0u8; 32];
    let big: Vec<Vec<u8>> = std::iter::repeat(word).take(65537).collect();
    let mut reg = ContractRegistry::new();
    assert!(reg.register_contracts(&vec![big.clone()], EncodingMode::Production).is_err());
    assert!(reg.register_contracts(&vec![big], EncodingMode::Testing).is_ok());
}

#[test]
fn deployer_address_matches_system_params() {
    let ours = deployer_address();
    let theirs = &zkevm_opcode_defs::system_params::DEPLOYER_SYSTEM_CONTRACT_ADDRESS;
    assert_eq!(ours.as_slice(), theirs.as_bytes());
}
