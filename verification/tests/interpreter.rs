//! End-to-end scenarios for the interpreter: boundary cases of the
//! stack, jumps, storage refunds, creates, selfdestructs and the
//! call/return-data protocol.

use levm::db::{GeneralizedDatabase, Store, StoredAccount};
use levm::environment::Environment;
use levm::errors::{TxResult, VMError};
use levm::fork::{EVMConfig, Fork};
use levm::kv::KvMap;
use levm::vm::{Transaction, TxKind, VM};
use levm::word::{Address, U256};

fn addr(last: u8) -> Address {
    let mut octets = [0u8; 20];
    octets[19] = last;
    Address { octets }
}

fn stored(balance: u64, code: Vec<u8>, nonce: u64) -> StoredAccount {
    StoredAccount {
        balance: U256::from_u64(balance),
        bytecode: bytes::Bytes::from(code),
        nonce,
        storage: KvMap::new(),
    }
}

fn env_for(origin: Address, fork: Fork, gas_limit: u64) -> Environment {
    Environment {
        origin,
        coinbase: addr(0xC0),
        gas_limit,
        gas_price: U256::from_u64(0),
        base_fee_per_gas: U256::from_u64(0),
        blob_gas_price: U256::from_u64(0),
        config: EVMConfig::new(fork, EVMConfig::canonical_values(fork)),
        refunded_gas: 0,
        transient_storage: KvMap::new(),
    }
}

/// Build a VM for a call from `origin` to `callee`, whose accounts sit
/// in `accounts`, and run the interpreter loop without the
/// transaction-level hooks, so gas numbers are the raw opcode costs.
fn run_call(
    accounts: Vec<(Address, StoredAccount)>,
    origin: Address,
    callee: Address,
    fork: Fork,
    gas_limit: u64,
) -> (levm::errors::ExecutionReport, VM) {
    let mut store = Store::new();
    for (a, acct) in accounts {
        store.accounts.insert(a, acct);
    }
    let db = GeneralizedDatabase::new(store, KvMap::new());
    let env = env_for(origin, fork, gas_limit);
    let tx = Transaction {
        to: TxKind::Call(callee),
        value: U256::from_u64(0),
        data: bytes::Bytes::new(),
        access_list: Vec::new(),
        blob_versioned_hashes: Vec::new(),
    };
    let mut vm = VM::new(env, db, &tx).unwrap();
    let backup = vm.snapshot();
    vm.backups.push(backup);
    let report = vm.run_execution().unwrap();
    (report, vm)
}

#[test]
fn push_1024_times_succeeds_with_three_gas_each() {
    let mut code: Vec<u8> = Vec::new();
    for _ in 0..1024 {
        code.push(0x60);
        code.push(0x00);
    }
    let origin = addr(0x21);
    let callee = addr(0x22);
    let (report, _vm) = run_call(
        vec![(origin, stored(0, vec![], 0)), (callee, stored(0, code, 1))],
        origin,
        callee,
        Fork::Cancun,
        1_000_000,
    );
    assert!(matches!(report.result, TxResult::Success));
    assert_eq!(report.gas_used, 1024 * 3);
}

#[test]
fn push_1025th_overflows_the_stack_and_consumes_all_gas() {
    let mut code: Vec<u8> = Vec::new();
    for _ in 0..1025 {
        code.push(0x60);
        code.push(0x00);
    }
    let origin = addr(0x21);
    let callee = addr(0x22);
    let (report, _vm) = run_call(
        vec![(origin, stored(0, vec![], 0)), (callee, stored(0, code, 1))],
        origin,
        callee,
        Fork::Cancun,
        1_000_000,
    );
    match report.result {
        TxResult::Revert(e) => assert_eq!(e, VMError::StackOverflow),
        TxResult::Success => panic!("expected a stack overflow"),
    }
    assert_eq!(report.gas_used, 1_000_000);
}

#[test]
fn jump_into_push_immediate_is_invalid() {
    // PUSH1 0x5B; JUMP — position 1 holds a JUMPDEST byte, but inside
    // the PUSH immediate window.
    let code = vec![0x60, 0x5B, 0x56];
    let origin = addr(0x21);
    let callee = addr(0x22);
    let (report, _vm) = run_call(
        vec![(origin, stored(0, vec![], 0)), (callee, stored(0, code, 1))],
        origin,
        callee,
        Fork::Cancun,
        100_000,
    );
    match report.result {
        TxResult::Revert(e) => assert_eq!(e, VMError::InvalidJump),
        TxResult::Success => panic!("expected an invalid jump"),
    }
}

#[test]
fn pop_on_empty_stack_underflows() {
    let code = vec![0x50];
    let origin = addr(0x21);
    let callee = addr(0x22);
    let (report, _vm) = run_call(
        vec![(origin, stored(0, vec![], 0)), (callee, stored(0, code, 1))],
        origin,
        callee,
        Fork::Cancun,
        100_000,
    );
    match report.result {
        TxResult::Revert(e) => assert_eq!(e, VMError::StackUnderflow),
        TxResult::Success => panic!("expected a stack underflow"),
    }
}

#[test]
fn sstore_costs_cold_then_warm_and_refunds_on_clearing() {
    // SSTORE(0, 1): cold slot, original 0 — 22100.
    // SSTORE(0, 0): warm, back to original — 100 and 19900 refund.
    let code = vec![0x60, 0x01, 0x60, 0x00, 0x55, 0x60, 0x00, 0x60, 0x00, 0x55, 0x00];
    let origin = addr(0x21);
    let callee = addr(0x22);
    let (report, _vm) = run_call(
        vec![(origin, stored(0, vec![], 0)), (callee, stored(0, code, 1))],
        origin,
        callee,
        Fork::Cancun,
        1_000_000,
    );
    assert!(matches!(report.result, TxResult::Success));
    assert_eq!(report.gas_used, 3 + 3 + 22100 + 3 + 3 + 100);
    assert_eq!(report.gas_refunded, 19900);
}

#[test]
fn create_collision_pushes_zero_and_bumps_nonce() {
    // CREATE with empty init code; the target address is precomputed
    // and pre-seeded with nonce 1 and no code (EIP-684 collision).
    let code = vec![0x60, 0x00, 0x60, 0x00, 0x60, 0x00, 0xF0, 0x60, 0x00, 0x55, 0x00];
    let origin = addr(0x21);
    let callee = addr(0x22);
    let collision_target = levm::utils::calculate_create_address(callee, 1);
    let (report, mut vm) = run_call(
        vec![
            (origin, stored(0, vec![], 0)),
            (callee, stored(0, code.clone(), 1)),
            (collision_target, stored(0, vec![], 1)),
        ],
        origin,
        callee,
        Fork::Cancun,
        1_000_000,
    );
    assert!(matches!(report.result, TxResult::Success));
    // The deployer's nonce was bumped despite the failure.
    assert_eq!(vm.db.get_account(&callee).info.nonce, 2);
    // The CREATE pushed 0, stored into slot 0.
    let slot = vm.db.get_account(&callee).storage.get(&U256::from_u64(0)).map(|s| *s);
    assert!(slot.unwrap().current_value.is_zero());

    // The same run without the collision keeps the reserved gas.
    let (clean_report, mut clean_vm) = run_call(
        vec![(origin, stored(0, vec![], 0)), (callee, stored(0, code, 1))],
        origin,
        callee,
        Fork::Cancun,
        1_000_000,
    );
    assert!(matches!(clean_report.result, TxResult::Success));
    assert!(report.gas_used > clean_report.gas_used);
    // The clean deployment stored a nonzero address in slot 0.
    let clean_slot = clean_vm
        .db
        .get_account(&callee)
        .storage
        .get(&U256::from_u64(0))
        .map(|s| *s)
        .unwrap();
    assert!(!clean_slot.current_value.is_zero());
}

#[test]
fn selfdestruct_of_preexisting_account_only_moves_the_balance() {
    // PUSH1 0x42; SELFDESTRUCT in an account not created this
    // transaction: the balance moves, the account stays, the
    // destruction set stays empty (Cancun, EIP-6780).
    let code = vec![0x60, 0x42, 0xFF];
    let origin = addr(0x21);
    let callee = addr(0x22);
    let (report, mut vm) = run_call(
        vec![(origin, stored(0, vec![], 0)), (callee, stored(7, code, 1))],
        origin,
        callee,
        Fork::Cancun,
        1_000_000,
    );
    assert!(matches!(report.result, TxResult::Success));
    assert_eq!(vm.accrued_substate.selfdestruct_set.len(), 0);
    assert_eq!(vm.db.get_account(&addr(0x42)).info.balance.to_u64(), Some(7));
    assert_eq!(vm.db.get_account(&callee).info.balance.to_u64(), Some(0));
    assert!(vm.db.account_exists(&callee));
}

#[test]
fn call_then_returndatacopy_reproduces_the_output() {
    // B stores 0xAB at memory 0 and returns that byte. A calls B, then
    // RETURNDATACOPY(0, 0, 1), loads the word and stores it: slot 0's
    // first byte must be 0xAB.
    let callee_b_code = vec![0x60, 0xAB, 0x60, 0x00, 0x53, 0x60, 0x01, 0x60, 0x00, 0xF3];
    let caller_a_code = vec![
        0x60, 0x00, // ret_size
        0x60, 0x00, // ret_offset
        0x60, 0x00, // args_size
        0x60, 0x00, // args_offset
        0x60, 0x00, // value
        0x60, 0xBB, // address of B
        0x60, 0xFF, // gas
        0xF1, // CALL
        0x60, 0x01, // size
        0x60, 0x00, // returndata offset
        0x60, 0x00, // dest offset
        0x3E, // RETURNDATACOPY
        0x60, 0x00, 0x51, // MLOAD 0
        0x60, 0x00, 0x55, // SSTORE into slot 0
        0x00,
    ];
    let origin = addr(0x21);
    let a = addr(0x22);
    let b = addr(0xBB);
    let (report, mut vm) = run_call(
        vec![
            (origin, stored(0, vec![], 0)),
            (a, stored(0, caller_a_code, 1)),
            (b, stored(0, callee_b_code, 1)),
        ],
        origin,
        a,
        Fork::Cancun,
        1_000_000,
    );
    assert!(matches!(report.result, TxResult::Success));
    let slot = vm.db.get_account(&a).storage.get(&U256::from_u64(0)).map(|s| *s).unwrap();
    assert_eq!(slot.current_value.octets[0], 0xAB);
    for i in 1..32 {
        assert_eq!(slot.current_value.octets[i], 0x00);
    }
}

#[test]
fn revert_restores_storage_to_the_frame_entry_snapshot() {
    // A writes 5 into slot 0, then calls B, which writes 9 into its
    // own slot 0 and REVERTs: B's write must vanish, A's stays.
    let callee_b_code = vec![0x60, 0x09, 0x60, 0x00, 0x55, 0x60, 0x00, 0x60, 0x00, 0xFD];
    let caller_a_code = vec![
        0x60, 0x05, 0x60, 0x00, 0x55, // SSTORE(0, 5)
        0x60, 0x00, 0x60, 0x00, 0x60, 0x00, 0x60, 0x00, 0x60, 0x00, 0x61, 0xFF, 0xFF, // args
        0x60, 0xBB, 0x90, // push B, SWAP1 to order gas and address
        0xF1, // CALL
        0x00,
    ];
    // The operand order above pushes gas 0xFFFF then address 0xBB and
    // swaps, so the CALL pops gas first.
    let origin = addr(0x21);
    let a = addr(0x22);
    let b = addr(0xBB);
    let (report, mut vm) = run_call(
        vec![
            (origin, stored(0, vec![], 0)),
            (a, stored(0, caller_a_code, 1)),
            (b, stored(0, callee_b_code, 1)),
        ],
        origin,
        a,
        Fork::Cancun,
        1_000_000,
    );
    assert!(matches!(report.result, TxResult::Success));
    let a_slot = vm.db.get_account(&a).storage.get(&U256::from_u64(0)).map(|s| *s).unwrap();
    assert_eq!(a_slot.current_value.to_u64(), Some(5));
    let b_slot = vm.db.get_account(&b).storage.get(&U256::from_u64(0)).map(|s| *s);
    match b_slot {
        Some(s) => assert!(s.current_value.is_zero()),
        None => {},
    }
}

#[test]
fn full_transaction_charges_the_intrinsic_base_cost() {
    let origin = addr(0x21);
    let callee = addr(0x22);
    let mut store = Store::new();
    store.accounts.insert(origin, stored(10_000_000, vec![], 0));
    store.accounts.insert(callee, stored(0, vec![0x00], 1));
    let db = GeneralizedDatabase::new(store, KvMap::new());
    let env = env_for(origin, Fork::Cancun, 100_000);
    let tx = Transaction {
        to: TxKind::Call(callee),
        value: U256::from_u64(0),
        data: bytes::Bytes::new(),
        access_list: Vec::new(),
        blob_versioned_hashes: Vec::new(),
    };
    let mut vm = VM::new(env, db, &tx).unwrap();
    let report = vm.execute().unwrap();
    assert!(matches!(report.result, TxResult::Success));
    assert_eq!(report.gas_used, 21000);
    // The sender's nonce moved.
    assert_eq!(vm.db.get_account(&origin).info.nonce, 1);
}

#[test]
fn transient_storage_reads_back_within_the_transaction() {
    // TSTORE(0, 5); TLOAD(0); SSTORE(0, value): slot 0 ends as 5.
    let code = vec![0x60, 0x05, 0x60, 0x00, 0x5D, 0x60, 0x00, 0x5C, 0x60, 0x00, 0x55, 0x00];
    let origin = addr(0x21);
    let callee = addr(0x22);
    let (report, mut vm) = run_call(
        vec![(origin, stored(0, vec![], 0)), (callee, stored(0, code, 1))],
        origin,
        callee,
        Fork::Cancun,
        1_000_000,
    );
    assert!(matches!(report.result, TxResult::Success));
    let slot = vm.db.get_account(&callee).storage.get(&U256::from_u64(0)).map(|s| *s).unwrap();
    assert_eq!(slot.current_value.to_u64(), Some(5));
}

#[test]
fn delegation_designator_runs_the_delegated_code() {
    // The callee's code is the EIP-7702 designator 0xef0100 || B; the
    // delegated code writes 9 into slot 0 — of the callee, not of B.
    let b = addr(0xBB);
    let mut designator = vec![0xEF, 0x01, 0x00];
    designator.extend_from_slice(&b.octets);
    let delegated_code = vec![0x60, 0x09, 0x60, 0x00, 0x55, 0x00];
    let origin = addr(0x21);
    let callee = addr(0x22);
    let (report, mut vm) = run_call(
        vec![
            (origin, stored(0, vec![], 0)),
            (callee, stored(0, designator, 1)),
            (b, stored(0, delegated_code, 1)),
        ],
        origin,
        callee,
        Fork::Prague,
        1_000_000,
    );
    assert!(matches!(report.result, TxResult::Success));
    let slot = vm.db.get_account(&callee).storage.get(&U256::from_u64(0)).map(|s| *s).unwrap();
    assert_eq!(slot.current_value.to_u64(), Some(9));
    assert!(vm.db.get_account(&b).storage.get(&U256::from_u64(0)).is_none());
}

#[test]
fn mcopy_moves_bytes_inside_memory() {
    // Store 0x77 at offset 0, MCOPY(32, 0, 1), load the word at 32
    // and store it: slot 0's first byte is 0x77.
    let code = vec![
        0x60, 0x77, 0x60, 0x00, 0x53, // MSTORE8(0, 0x77)
        0x60, 0x01, 0x60, 0x00, 0x60, 0x20, 0x5E, // MCOPY(dest 32, src 0, size 1)
        0x60, 0x20, 0x51, // MLOAD 32
        0x60, 0x00, 0x55, // SSTORE slot 0
        0x00,
    ];
    let origin = addr(0x21);
    let callee = addr(0x22);
    let (report, mut vm) = run_call(
        vec![(origin, stored(0, vec![], 0)), (callee, stored(0, code, 1))],
        origin,
        callee,
        Fork::Cancun,
        1_000_000,
    );
    assert!(matches!(report.result, TxResult::Success));
    let slot = vm.db.get_account(&callee).storage.get(&U256::from_u64(0)).map(|s| *s).unwrap();
    assert_eq!(slot.current_value.octets[0], 0x77);
}

#[test]
fn delegatecall_writes_into_the_callers_storage() {
    // A delegatecalls B; B's code writes 3 into slot 0 — of A.
    let delegated_code = vec![0x60, 0x03, 0x60, 0x00, 0x55, 0x00];
    let caller_code = vec![
        0x60, 0x00, // ret_size
        0x60, 0x00, // ret_offset
        0x60, 0x00, // args_size
        0x60, 0x00, // args_offset
        0x60, 0xBB, // code address B
        0x61, 0xFF, 0xFF, // gas
        0xF4, // DELEGATECALL
        0x00,
    ];
    let origin = addr(0x21);
    let a = addr(0x22);
    let b = addr(0xBB);
    let (report, mut vm) = run_call(
        vec![
            (origin, stored(0, vec![], 0)),
            (a, stored(0, caller_code, 1)),
            (b, stored(0, delegated_code, 1)),
        ],
        origin,
        a,
        Fork::Cancun,
        1_000_000,
    );
    assert!(matches!(report.result, TxResult::Success));
    let a_slot = vm.db.get_account(&a).storage.get(&U256::from_u64(0)).map(|s| *s).unwrap();
    assert_eq!(a_slot.current_value.to_u64(), Some(3));
    assert!(vm.db.get_account(&b).storage.get(&U256::from_u64(0)).is_none());
}

#[test]
fn call_with_value_moves_the_balance() {
    let caller_code = vec![
        0x60, 0x00, // ret_size
        0x60, 0x00, // ret_offset
        0x60, 0x00, // args_size
        0x60, 0x00, // args_offset
        0x60, 0x04, // value 4
        0x60, 0xCC, // callee C
        0x61, 0xFF, 0xFF, // gas
        0xF1, // CALL
        0x00,
    ];
    let origin = addr(0x21);
    let a = addr(0x22);
    let c = addr(0xCC);
    let (report, mut vm) = run_call(
        vec![
            (origin, stored(0, vec![], 0)),
            (a, stored(10, caller_code, 1)),
            (c, stored(0, vec![], 1)),
        ],
        origin,
        a,
        Fork::Cancun,
        1_000_000,
    );
    assert!(matches!(report.result, TxResult::Success));
    assert_eq!(vm.db.get_account(&c).info.balance.to_u64(), Some(4));
    assert_eq!(vm.db.get_account(&a).info.balance.to_u64(), Some(6));
}

#[test]
fn identity_precompile_copies_its_input() {
    // A calls the data-copy precompile at address 4 with one byte of
    // arguments taken from memory, then copies the returned byte into
    // storage slot 0.
    let caller_code = vec![
        0x60, 0x5A, 0x60, 0x00, 0x53, // MSTORE8(0, 0x5A)
        0x60, 0x00, // ret_size
        0x60, 0x00, // ret_offset
        0x60, 0x01, // args_size
        0x60, 0x00, // args_offset
        0x60, 0x00, // value
        0x60, 0x04, // the identity precompile
        0x61, 0xFF, 0xFF, // gas
        0xF1, // CALL
        0x60, 0x01, 0x60, 0x00, 0x60, 0x20, 0x3E, // RETURNDATACOPY(32, 0, 1)
        0x60, 0x20, 0x51, // MLOAD 32
        0x60, 0x00, 0x55, // SSTORE slot 0
        0x00,
    ];
    let origin = addr(0x21);
    let a = addr(0x22);
    let (report, mut vm) = run_call(
        vec![(origin, stored(0, vec![], 0)), (a, stored(0, caller_code, 1))],
        origin,
        a,
        Fork::Cancun,
        1_000_000,
    );
    assert!(matches!(report.result, TxResult::Success));
    let slot = vm.db.get_account(&a).storage.get(&U256::from_u64(0)).map(|s| *s).unwrap();
    assert_eq!(slot.current_value.octets[0], 0x5A);
}
