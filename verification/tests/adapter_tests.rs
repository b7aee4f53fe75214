use compiler_tester::adapter::{
    build_output, complete_vm_call, compose_flag_register, prepare_vm_call, resolve_launch_option,
    AbiParams, LaunchOption, VmOutcome,
};
use compiler_tester::errors::VmError;
use compiler_tester::registry::{ContractRegistry, EncodingMode};
use compiler_tester::storage::{Storage, StorageKey};
use compiler_tester::words::{address_into_u256, deployer_address, word_zero};

fn user_address(last: u8) -> Vec<u8> {
    let mut a = vec![0u8; 20];
    a[0] = 0xcc;
    a[19] = last;
    a
}

fn one_word_body(tag: u8) -> Vec<Vec<u8>> {
    let mut w = vec![0u8; 32];
    w[0] = tag;
    vec![w]
}

#[test]
fn plain_call_resolves_to_no_flags() {
    let p = resolve_launch_option(LaunchOption::Call).expect("supported");
    assert!(!p.is_constructor);
    assert!(!p.is_system_call);
    assert!(p.r3_value.is_none() && p.r4_value.is_none() && p.r5_value.is_none());
}

#[test]
fn constructor_call_sets_constructor_flag_only() {
    let p = resolve_launch_option(LaunchOption::Constructor).expect("supported");
    assert!(p.is_constructor);
    assert!(!p.is_system_call);
}

#[test]
fn manual_call_passes_params_through() {
    let params = AbiParams {
        is_constructor: true,
        is_system_call: true,
        r3_value: Some(word_zero()),
        r4_value: None,
        r5_value: None,
    };
    let p = resolve_launch_option(LaunchOption::ManualCallABI(params)).expect("supported");
    assert!(p.is_constructor && p.is_system_call);
    assert_eq!(p.r3_value, Some(word_zero()));
}

#[test]
fn other_launch_options_are_configuration_errors() {
    match resolve_launch_option(LaunchOption::Pc(4)) {
        Err(e) => assert_eq!(e, VmError::UnsupportedLaunchOption),
        Ok(_) => panic!("expected a configuration error"),
    }
    match resolve_launch_option(LaunchOption::Label(b"start".to_vec())) {
        Err(e) => assert_eq!(e, VmError::UnsupportedLaunchOption),
        Ok(_) => panic!("expected a configuration error"),
    }
}

#[test]
fn both_flag_bits_compose_additively() {
    let mut r1 = vec![0u8; 32];
    r1[31] = 0x40;
    let r2 = compose_flag_register(&r1, true, true);
    assert_eq!(r2[31], 0x40 | 3);
    assert_eq!(&r2[0..31], &r1[0..31]);
}

#[test]
fn plain_call_leaves_register_unchanged() {
    let mut r1 = vec![0u8; 32];
    r1[31] = 0x40;
    let r2 = compose_flag_register(&r1, false, false);
    assert_eq!(r2, r1);
}

#[test]
fn trivial_return_run_has_clean_result() {
    // empty calldata, empty storage, a contract returning one zero word
    let outcome = VmOutcome::Completed(vec![0u8; 32]);
    let (result, delta, deployed) = complete_vm_call(
        &outcome,
        &Vec::new(),
        100,
        60,
        &Storage::new(),
        &Storage::new(),
        &ContractRegistry::new(),
    );
    assert!(!result.output.exception);
    assert_eq!(result.output.return_data, vec![vec![0u8; 32]]);
    assert!(result.output.events.is_empty());
    assert!(delta.entries.is_empty());
    assert!(deployed.is_empty());
    assert_eq!(result.ergs, 40);
    assert_eq!(result.cycles, 0);
    assert_eq!(result.gas, 0);
}

#[test]
fn reverted_run_reports_no_events_and_empty_delta() {
    // a slot was written before the revert, then rolled back: the
    // touched cell holds its initial value again
    let key = StorageKey { address: user_address(1), slot: word_zero() };
    let mut value = vec![0u8; 32];
    value[31] = 9;
    let mut initial = Storage::new();
    initial.insert(
        StorageKey { address: user_address(1), slot: word_zero() },
        value.clone(),
    );
    let mut touched = Storage::new();
    touched.insert(key, value);
    // the VM recorded an event before reverting; it must not surface
    let mut addr_word = vec![0u8; 12];
    addr_word.extend_from_slice(&user_address(2));
    let mut key_word = vec![0u8; 32];
    key_word[31] = 1;
    let records = vec![compiler_tester::events::RawRecord {
        shard_id: 0,
        is_first: true,
        tx_number: 1,
        key: key_word,
        value: addr_word,
    }];
    let outcome = VmOutcome::Reverted(vec![1, 2, 3]);
    let (result, delta, _deployed) = complete_vm_call(
        &outcome,
        &records,
        10,
        4,
        &initial,
        &touched,
        &ContractRegistry::new(),
    );
    assert!(result.output.exception);
    assert!(result.output.events.is_empty());
    let mut padded = vec![1u8, 2, 3];
    padded.resize(32, 0);
    assert_eq!(result.output.return_data, vec![padded]);
    assert!(delta.entries.is_empty());
}

#[test]
fn panic_and_suspension_report_empty_output() {
    for outcome in [VmOutcome::Panicked, VmOutcome::Suspended] {
        let out = build_output(&outcome, &Vec::new());
        assert!(out.exception);
        assert!(out.return_data.is_empty());
        assert!(out.events.is_empty());
    }
}

#[test]
fn deployed_contract_is_detected_when_hash_is_known() {
    let body = one_word_body(0x77);
    let mut known = ContractRegistry::new();
    known
        .register_contracts(&vec![body.clone()], EncodingMode::Testing)
        .expect("hashable");
    let hash = known.entries[0].0.clone();
    let deployed_at = user_address(0x0f);
    let mut touched = Storage::new();
    touched.insert(
        StorageKey { address: deployer_address(), slot: address_into_u256(&deployed_at) },
        hash,
    );
    let outcome = VmOutcome::Completed(Vec::new());
    let (_result, _delta, deployed) = complete_vm_call(
        &outcome,
        &Vec::new(),
        1,
        0,
        &Storage::new(),
        &touched,
        &known,
    );
    assert_eq!(deployed.len(), 1);
    assert_eq!(deployed[0].0, deployed_at);
    assert_eq!(deployed[0].1, body);
}

#[test]
fn unknown_hash_at_deployer_address_is_not_reported() {
    let mut unknown_hash = vec![0u8; 32];
    unknown_hash[0] = 0xff;
    let deployed_at = user_address(0x10);
    let mut touched = Storage::new();
    touched.insert(
        StorageKey { address: deployer_address(), slot: address_into_u256(&deployed_at) },
        unknown_hash,
    );
    let (_result, _delta, deployed) = complete_vm_call(
        &VmOutcome::Completed(Vec::new()),
        &Vec::new(),
        1,
        0,
        &Storage::new(),
        &touched,
        &ContractRegistry::new(),
    );
    assert!(deployed.is_empty());
}

#[test]
fn prepare_resolves_entry_code_and_registers() {
    let entry = user_address(0x21);
    let body = one_word_body(0x55);
    // hash the body the same way registration will, to plant the entry
    // pointer in storage
    let mut probe = ContractRegistry::new();
    probe
        .register_contracts(&vec![body.clone()], EncodingMode::Testing)
        .expect("hashable");
    let hash = probe.entries[0].0.clone();
    let mut storage = Storage::new();
    storage.insert(
        StorageKey { address: deployer_address(), slot: address_into_u256(&entry) },
        hash,
    );
    let mut r1 = vec![0u8; 32];
    r1[31] = 0x10;
    let prepared = prepare_vm_call(
        &vec![body.clone()],
        &ContractRegistry::new(),
        &storage,
        &entry,
        LaunchOption::Constructor,
        &r1,
        ContractRegistry::new(),
        EncodingMode::Testing,
    )
    .expect("prepared");
    assert!(prepared.abi.is_constructor);
    assert_eq!(prepared.entry_code, body);
    assert_eq!(prepared.flag_register[31], 0x10 | 1);
    assert_eq!(prepared.r3, vec![0u8; 32]);
    assert_eq!(prepared.known_contracts.entries.len(), 1);
}

#[test]
fn prepare_fails_without_entry_pointer() {
    let entry = user_address(0x22);
    let err = prepare_vm_call(
        &Vec::new(),
        &ContractRegistry::new(),
        &Storage::new(),
        &entry,
        LaunchOption::Call,
        &word_zero(),
        ContractRegistry::new(),
        EncodingMode::Testing,
    );
    match err {
        Err(e) => assert_eq!(e, VmError::EntryCodeUnresolved),
        Ok(_) => panic!("expected an unresolved entry"),
    }
}

#[test]
fn prepare_fails_on_unhashable_body() {
    // an even number of words cannot be hashed
    let body = vec![vec![0u8; 32], vec![0u8; 32]];
    let err = prepare_vm_call(
        &vec![body],
        &ContractRegistry::new(),
        &Storage::new(),
        &user_address(0x23),
        LaunchOption::Call,
        &word_zero(),
        ContractRegistry::new(),
        EncodingMode::Testing,
    );
    match err {
        Err(e) => assert_eq!(e, VmError::BytecodeNotHashable),
        Ok(_) => panic!("expected a hashing failure"),
    }
}

#[test]
fn prepare_rejects_unsupported_launch_options() {
    let r = prepare_vm_call(
        &Vec::new(),
        &ContractRegistry::new(),
        &Storage::new(),
        &user_address(0x24),
        LaunchOption::Pc(0),
        &word_zero(),
        ContractRegistry::new(),
        EncodingMode::Testing,
    );
    match r {
        Err(e) => assert_eq!(e, VmError::UnsupportedLaunchOption),
        Ok(_) => panic!("expected a configuration error"),
    }
}

#[test]
fn prepare_composes_manual_registers() {
    let entry = user_address(0x25);
    let body = one_word_body(0x44);
    let mut probe = ContractRegistry::new();
    probe
        .register_contracts(&vec![body.clone()], EncodingMode::Production)
        .expect("hashable");
    let hash = probe.entries[0].0.clone();
    let mut storage = Storage::new();
    storage.insert(
        StorageKey { address: deployer_address(), slot: address_into_u256(&entry) },
        hash,
    );
    let mut r3 = vec![0u8; 32];
    r3[31] = 0x99;
    let params = AbiParams {
        is_constructor: true,
        is_system_call: true,
        r3_value: Some(r3.clone()),
        r4_value: None,
        r5_value: None,
    };
    let prepared = prepare_vm_call(
        &vec![body],
        &ContractRegistry::new(),
        &storage,
        &entry,
        LaunchOption::ManualCallABI(params),
        &word_zero(),
        ContractRegistry::new(),
        EncodingMode::Production,
    )
    .expect("prepared");
    // both flag bits set additively on the zero base
    assert_eq!(prepared.flag_register[31], 3);
    assert_eq!(prepared.r3, r3);
    assert_eq!(prepared.r4, vec![0u8; 32]);
    assert_eq!(prepared.r5, vec![0u8; 32]);
}
