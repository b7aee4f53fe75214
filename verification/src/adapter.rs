//! The execution adapter: turns one test's call parameters into a VM run
//! and interprets the run's observable outcome. The VM itself is an
//! outside engine; the adapter prepares everything the engine needs
//! (resolved ABI registers, the code store, the entry code) and, once the
//! engine has run to completion, computes the structured result, the
//! storage delta and the freshly deployed contracts.

use vstd::prelude::*;

use crate::errors::VmError;
use crate::events::Event;
use crate::events::RawRecord;
use crate::events::chunk_return_data;
use crate::events::chunk_words;
use crate::events::event_views;
use crate::events::event_wf;
use crate::events::merge_events;
use crate::events::merge_events_spec;
use crate::events::RecordView;
use crate::events::record_views;
use crate::events::record_wf;
use crate::registry::Bytecode;
use crate::registry::ContractRegistry;
use crate::registry::EncodingMode;
use crate::registry::bytecode_wf;
use crate::registry::code_views;
use crate::registry::hashable;
use crate::registry::lookup_code;
use crate::registry::registered_entries;
use crate::storage::Storage;
use crate::storage::StorageKey;
use crate::storage::delta_views;
use crate::storage::deployed_views;
use crate::storage::deployment_views;
use crate::storage::deployments_wf;
use crate::storage::detect_deployed_contracts;
use crate::storage::read_value;
use crate::storage::storage_delta;
use crate::words::Address;
use crate::words::Word;
use crate::words::address_into_u256;
use crate::words::address_to_word;
use crate::words::copy_bytes;
use crate::words::deployer_address;
use crate::words::deployer_address_bytes;
use crate::words::is_address;
use crate::words::is_word;
use crate::words::or_low_bits;
use crate::words::views_of;
use crate::words::word_or_low_bits;
use crate::words::word_zero;
use crate::words::zero_bytes;

verus! {

/// The ABI register parameters of one call: the two flag bits and up to
/// three auxiliary 256-bit register values.
pub struct AbiParams {
    /// Whether the call runs a constructor.
    pub is_constructor: bool,
    /// Whether the call is a system call.
    pub is_system_call: bool,
    /// The auxiliary register-3 value, absent for zero.
    pub r3_value: Option<Word>,
    /// The auxiliary register-4 value, absent for zero.
    pub r4_value: Option<Word>,
    /// The auxiliary register-5 value, absent for zero.
    pub r5_value: Option<Word>,
}

/// Every present auxiliary value is a well-formed word.
pub open spec fn abi_params_wf(p: AbiParams) -> bool {
    &&& match p.r3_value {
        Some(w) => is_word(w@),
        None => true,
    }
    &&& match p.r4_value {
        Some(w) => is_word(w@),
        None => true,
    }
    &&& match p.r5_value {
        Some(w) => is_word(w@),
        None => true,
    }
}

/// How a run enters the VM.
pub enum LaunchOption {
    /// A plain call.
    Call,
    /// A constructor call.
    Constructor,
    /// A manual register-level call with explicit ABI parameters.
    ManualCallABI(AbiParams),
    /// Entry at a raw program counter: not a supported ABI mode here.
    Pc(u16),
    /// Entry at a named label: not a supported ABI mode here.
    Label(Vec<u8>),
}

/// A launch option's payload is well-formed.
pub open spec fn launch_option_wf(o: LaunchOption) -> bool {
    match o {
        LaunchOption::ManualCallABI(p) => abi_params_wf(p),
        _ => true,
    }
}

/// The concrete ABI parameters a launch option resolves to: plain and
/// constructor calls are canonical shorthands, a manual call supplies its
/// parameters directly, and any other option is a configuration error.
pub open spec fn resolved_option(o: LaunchOption) -> Option<AbiParams> {
    match o {
        LaunchOption::Call => Some(
            AbiParams {
                is_constructor: false,
                is_system_call: false,
                r3_value: None,
                r4_value: None,
                r5_value: None,
            },
        ),
        LaunchOption::Constructor => Some(
            AbiParams {
                is_constructor: true,
                is_system_call: false,
                r3_value: None,
                r4_value: None,
                r5_value: None,
            },
        ),
        LaunchOption::ManualCallABI(p) => Some(p),
        _ => None,
    }
}

/// Resolves the ABI launch mode into concrete register parameters. An
/// unsupported option is a configuration error, not a runtime condition.
pub fn resolve_launch_option(option: LaunchOption) -> (r: Result<AbiParams, VmError>)
    requires
        launch_option_wf(option),
    ensures
        match r {
            Ok(p) => resolved_option(option) == Some(p) && abi_params_wf(p),
            Err(e) => resolved_option(option) is None && e == VmError::UnsupportedLaunchOption,
        },
{
    match option {
        LaunchOption::Call => Ok(
            AbiParams {
                is_constructor: false,
                is_system_call: false,
                r3_value: None,
                r4_value: None,
                r5_value: None,
            },
        ),
        LaunchOption::Constructor => Ok(
            AbiParams {
                is_constructor: true,
                is_system_call: false,
                r3_value: None,
                r4_value: None,
                r5_value: None,
            },
        ),
        LaunchOption::ManualCallABI(p) => Ok(p),
        LaunchOption::Pc(_) => Err(VmError::UnsupportedLaunchOption),
        LaunchOption::Label(_) => Err(VmError::UnsupportedLaunchOption),
    }
}

/// The flag bits of a call: bit 0 marks a constructor call, bit 1 a
/// system call, each set independently.
pub open spec fn flag_bits(is_constructor: bool, is_system_call: bool) -> u8 {
    (if is_constructor {
        1u8
    } else {
        0u8
    }) | (if is_system_call {
        2u8
    } else {
        0u8
    })
}

/// Composes the auxiliary flag register: the initial register-1 value
/// with the constructor bit and the system-call bit OR'ed into its lowest
/// byte, both applied independently and additively.
pub fn compose_flag_register(r1: &Word, is_constructor: bool, is_system_call: bool) -> (r: Word)
    requires
        is_word(r1@),
    ensures
        is_word(r@),
        r@ == or_low_bits(r1@, flag_bits(is_constructor, is_system_call)),
{
    let c: u8 = if is_constructor {
        1
    } else {
        0
    };
    let s: u8 = if is_system_call {
        2
    } else {
        0
    };
    word_or_low_bits(r1, c | s)
}

/// Constructor/system flag composition: with the constructor call and
/// the system flag both requested, both bits are set in the resulting
/// register value; with a plain call the register keeps the base value
/// unchanged.
pub proof fn lemma_flag_composition(r1: Seq<u8>, is_constructor: bool, is_system_call: bool)
    requires
        is_word(r1),
    ensures
        ({
            let low = or_low_bits(r1, flag_bits(is_constructor, is_system_call))[31];
            &&& (is_constructor ==> low & 1 == 1)
            &&& (is_system_call ==> low & 2 == 2)
            &&& (!is_constructor && !is_system_call ==> or_low_bits(r1, flag_bits(false, false))
                =~= r1)
        }),
{
    let base = r1[31];
    assert((base | (1u8 | 0u8)) & 1 == 1) by (bit_vector);
    assert((base | (1u8 | 2u8)) & 1 == 1) by (bit_vector);
    assert((base | (0u8 | 2u8)) & 2 == 2) by (bit_vector);
    assert((base | (1u8 | 2u8)) & 2 == 2) by (bit_vector);
    assert(base | (0u8 | 0u8) == base) by (bit_vector);
    if !is_constructor && !is_system_call {
        assert(or_low_bits(r1, flag_bits(false, false)) =~= r1.update(31, base));
        assert(r1.update(31, base) =~= r1);
    }
}

/// The observable outcome of running the VM to completion. Four mutually
/// exclusive cases; a run suspended on a host call is treated as
/// exceptional with empty output.
pub enum VmOutcome {
    /// Normal completion, with the returned bytes.
    Completed(Vec<u8>),
    /// An explicit revert, with the returned bytes.
    Reverted(Vec<u8>),
    /// An abnormal panic: no return data.
    Panicked,
    /// Suspended on a host call: no continuation protocol is
    /// implemented, so the run counts as exceptional with empty output.
    Suspended,
}

/// The structured output of one run.
pub struct Output {
    /// The return data as 256-bit words, the last word zero-padded on a
    /// partial 32-byte remainder.
    pub return_data: Vec<Word>,
    /// Whether the run ended exceptionally (revert, panic or suspension).
    pub exception: bool,
    /// The structured events; empty on every exceptional path.
    pub events: Vec<Event>,
}

/// The result of one run, with its resource counters.
pub struct ExecutionResult {
    /// The structured output.
    pub output: Output,
    /// Machine cycles: not measured by this adapter.
    pub cycles: u64,
    /// Gas-equivalent units the outer call frame consumed.
    pub ergs: u64,
    /// A separate gas counter: not measured by this adapter.
    pub gas: u64,
}

/// What the output of a run must look like for each outcome: return data
/// chunked into words on completion and revert, events reconstructed
/// from the raw records on the success path only, the exception flag on
/// every path but success.
pub open spec fn output_matches(out: Output, outcome: VmOutcome, records: Seq<RecordView>) -> bool {
    match outcome {
        VmOutcome::Completed(bytes) => {
            &&& !out.exception
            &&& views_of(out.return_data@) == chunk_words(bytes@)
            &&& event_views(out.events@) == merge_events_spec(records)
        },
        VmOutcome::Reverted(bytes) => {
            &&& out.exception
            &&& views_of(out.return_data@) == chunk_words(bytes@)
            &&& out.events@.len() == 0
        },
        VmOutcome::Panicked => {
            &&& out.exception
            &&& out.return_data@.len() == 0
            &&& out.events@.len() == 0
        },
        VmOutcome::Suspended => {
            &&& out.exception
            &&& out.return_data@.len() == 0
            &&& out.events@.len() == 0
        },
    }
}

/// Builds the structured output of one run: events are reconstructed on
/// the success path only; revert and panic paths report zero events
/// regardless of what the VM recorded.
pub fn build_output(outcome: &VmOutcome, records: &Vec<RawRecord>) -> (out: Output)
    requires
        forall|i: int| 0 <= i < records@.len() ==> record_wf(#[trigger] records@[i]),
    ensures
        output_matches(out, *outcome, record_views(records@)),
        forall|i: int| 0 <= i < out.events@.len() ==> event_wf(#[trigger] out.events@[i]),
{
    match outcome {
        VmOutcome::Completed(bytes) => {
            let return_data = chunk_return_data(bytes);
            let events = merge_events(records);
            Output { return_data, exception: false, events }
        },
        VmOutcome::Reverted(bytes) => {
            let return_data = chunk_return_data(bytes);
            Output { return_data, exception: true, events: Vec::new() }
        },
        VmOutcome::Panicked => {
            Output { return_data: Vec::new(), exception: true, events: Vec::new() }
        },
        VmOutcome::Suspended => {
            Output { return_data: Vec::new(), exception: true, events: Vec::new() }
        },
    }
}

/// Interprets everything observable after a run: the structured output,
/// the gas the outer frame consumed (available before minus available
/// after), the storage delta of the touched cells against the initial
/// snapshot, and the freshly deployed contracts read from writes at the
/// reserved system deployer address.
pub fn complete_vm_call(
    outcome: &VmOutcome,
    records: &Vec<RawRecord>,
    gas_before: u64,
    gas_after: u64,
    initial: &Storage,
    touched: &Storage,
    known_contracts: &ContractRegistry,
) -> (r: (ExecutionResult, Storage, Vec<(Address, Bytecode)>))
    requires
        gas_after <= gas_before,
        forall|i: int| 0 <= i < records@.len() ==> record_wf(#[trigger] records@[i]),
        initial.wf(),
        touched.wf(),
        known_contracts.wf(),
    ensures
        output_matches(r.0.output, *outcome, record_views(records@)),
        forall|i: int| 0 <= i < r.0.output.events@.len() ==> event_wf(#[trigger] r.0.output.events@[i]),
        r.0.ergs == gas_before - gas_after,
        r.0.cycles == 0,
        r.0.gas == 0,
        r.1.wf(),
        r.1.view_entries() == delta_views(initial.view_entries(), touched.view_entries()),
        deployments_wf(r.2@),
        deployment_views(r.2@) == deployed_views(
            touched.view_entries(),
            known_contracts.view_entries(),
        ),
{
    let output = build_output(outcome, records);
    let delta = storage_delta(initial, touched);
    let deployed = detect_deployed_contracts(touched, known_contracts);
    let result = ExecutionResult { output, cycles: 0, ergs: gas_before - gas_after, gas: 0 };
    (result, delta, deployed)
}

/// Everything the VM needs to start one call, computed before the run.
pub struct PreparedCall {
    /// The resolved ABI parameters.
    pub abi: AbiParams,
    /// The known-contract table after every supplied body was registered
    /// under its content hash.
    pub known_contracts: ContractRegistry,
    /// The VM's code store: the registered bodies with the pre-supplied
    /// code blobs appended (blobs override on a shared hash).
    pub code_store: ContractRegistry,
    /// The entry contract's code, located via its deployed storage
    /// record.
    pub entry_code: Bytecode,
    /// The auxiliary flag register (register 2).
    pub flag_register: Word,
    /// Auxiliary register 3.
    pub r3: Word,
    /// Auxiliary register 4.
    pub r4: Word,
    /// Auxiliary register 5.
    pub r5: Word,
}

/// The code hash the entry address resolves to: the value its deployed
/// storage record at the reserved system deployer address holds.
pub open spec fn entry_hash(storage: Seq<((Seq<u8>, Seq<u8>), Seq<u8>)>, entry: Seq<u8>) -> Seq<
    u8,
> {
    read_value(storage, (deployer_address_bytes(), address_to_word(entry)))
}

/// The value an optional auxiliary register resolves to: the supplied
/// word, or zero.
pub open spec fn aux_value(v: Option<Word>) -> Seq<u8> {
    match v {
        Some(w) => w@,
        None => zero_bytes(32),
    }
}

/// Prepares one call: resolves the ABI launch mode, hashes and registers
/// every supplied contract body, appends the pre-supplied code blobs to
/// form the VM's code store, locates the entry code through the deployed
/// storage record at the entry address, and composes the auxiliary
/// registers from the initial register-1 value. Succeeds if and only if
/// the launch mode is supported, every body is hashable, and the entry
/// address resolves to code in the store.
pub fn prepare_vm_call(
    contracts: &Vec<Bytecode>,
    blobs: &ContractRegistry,
    storage: &Storage,
    entry_address: &Address,
    launch: LaunchOption,
    r1_initial: &Word,
    known_contracts: ContractRegistry,
    mode: EncodingMode,
) -> (r: Result<PreparedCall, VmError>)
    requires
        forall|i: int| 0 <= i < contracts@.len() ==> bytecode_wf(#[trigger] contracts@[i]@),
        blobs.wf(),
        storage.wf(),
        is_address(entry_address@),
        launch_option_wf(launch),
        is_word(r1_initial@),
        known_contracts.wf(),
    ensures
        ({
            let abi = resolved_option(launch);
            let all_hashable = forall|i: int|
                0 <= i < contracts@.len() ==> hashable(#[trigger] code_views(contracts@)[i], mode);
            let table = known_contracts.view_entries() + registered_entries(
                code_views(contracts@),
            );
            let store = table + blobs.view_entries();
            let entry = lookup_code(store, entry_hash(storage.view_entries(), entry_address@));
            match r {
                Ok(p) => {
                    &&& abi == Some(p.abi)
                    &&& all_hashable
                    &&& p.known_contracts.wf()
                    &&& p.known_contracts.view_entries() == table
                    &&& p.code_store.wf()
                    &&& p.code_store.view_entries() == store
                    &&& entry == Some(views_of(p.entry_code@))
                    &&& bytecode_wf(p.entry_code@)
                    &&& p.flag_register@ == or_low_bits(
                        r1_initial@,
                        flag_bits(p.abi.is_constructor, p.abi.is_system_call),
                    )
                    &&& p.r3@ == aux_value(p.abi.r3_value)
                    &&& p.r4@ == aux_value(p.abi.r4_value)
                    &&& p.r5@ == aux_value(p.abi.r5_value)
                },
                Err(e) => {
                    ||| (abi is None && e == VmError::UnsupportedLaunchOption)
                    ||| (abi is Some && !all_hashable && e == VmError::BytecodeNotHashable)
                    ||| (abi is Some && all_hashable && entry is None && e
                        == VmError::EntryCodeUnresolved)
                },
            }
        }),
{
    let abi = match resolve_launch_option(launch) {
        Ok(p) => p,
        Err(e) => {
            return Err(e);
        },
    };
    let mut known = known_contracts;
    match known.register_contracts(contracts, mode) {
        Ok(()) => {},
        Err(e) => {
            return Err(e);
        },
    }
    let mut store = ContractRegistry::new();
    store.extend_from(&known);
    store.extend_from(blobs);
    proof {
        assert(store.view_entries() =~= known.view_entries() + blobs.view_entries());
    }
    let key = StorageKey { address: deployer_address(), slot: address_into_u256(entry_address) };
    let hash = storage.read(&key);
    let entry_code = match store.get(&hash) {
        Some(c) => c,
        None => {
            return Err(VmError::EntryCodeUnresolved);
        },
    };
    let flag_register = compose_flag_register(r1_initial, abi.is_constructor, abi.is_system_call);
    let r3 = match &abi.r3_value {
        Some(w) => copy_bytes(w),
        None => word_zero(),
    };
    let r4 = match &abi.r4_value {
        Some(w) => copy_bytes(w),
        None => word_zero(),
    };
    let r5 = match &abi.r5_value {
        Some(w) => copy_bytes(w),
        None => word_zero(),
    };
    Ok(
        PreparedCall {
            abi,
            known_contracts: known,
            code_store: store,
            entry_code,
            flag_register,
            r3,
            r4,
            r5,
        },
    )
}

} // verus!
