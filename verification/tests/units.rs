//! Unit tests for the word, memory, gas and address modules.

use levm::fork::Fork;
use levm::gas_cost;
use levm::memory::{calculate_memory_size, Memory};
use levm::precompiles::is_precompile;
use levm::utils::calculate_create_address;
use levm::word::{word_to_address, Address, U256};

#[test]
fn word_u64_roundtrip() {
    let w = U256::from_u64(0xDEAD_BEEF_0042);
    assert_eq!(w.to_u64(), Some(0xDEAD_BEEF_0042));
    assert_eq!(w.to_usize(), Some(0xDEAD_BEEF_0042usize));
    assert!(!w.is_zero());
    assert!(U256::from_u64(0).is_zero());
}

#[test]
fn word_checked_arithmetic() {
    let a = U256::from_u64(u64::MAX);
    let b = U256::from_u64(1);
    let sum = a.checked_add(&b).unwrap();
    assert_eq!(sum.octets[23], 1);
    assert_eq!(sum.octets[31], 0);
    let diff = sum.checked_sub(&b).unwrap();
    assert_eq!(diff.to_u64(), Some(u64::MAX));
    assert!(b.checked_sub(&a).is_none());
    let mut max = U256 { octets: [0xFF; 32] };
    assert!(max.checked_add(&b).is_none());
    max = max.checked_sub(&b).unwrap();
    assert_eq!(max.octets[31], 0xFE);
}

#[test]
fn word_comparison_is_numeric() {
    let small = U256::from_u64(5);
    let big = U256::from_u64(500);
    assert!(small.lt(&big));
    assert!(!big.lt(&small));
    assert!(!small.lt(&small));
    assert!(small.eq_word(&U256::from_u64(5)));
}

#[test]
fn word_to_address_takes_the_low_bytes() {
    let w = U256::from_u64(0x1122);
    let a = word_to_address(&w);
    assert_eq!(a.octets[19], 0x22);
    assert_eq!(a.octets[18], 0x11);
    assert_eq!(a.octets[0], 0);
}

#[test]
fn memory_size_rounds_to_words() {
    assert_eq!(calculate_memory_size(&U256::from_u64(0), 1).unwrap(), 32);
    assert_eq!(calculate_memory_size(&U256::from_u64(0), 32).unwrap(), 32);
    assert_eq!(calculate_memory_size(&U256::from_u64(1), 32).unwrap(), 64);
    assert_eq!(calculate_memory_size(&U256::from_u64(0), 0).unwrap(), 0);
    let huge = U256 { octets: [0xFF; 32] };
    assert!(calculate_memory_size(&huge, 1).is_err());
}

#[test]
fn memory_store_then_load_gives_the_word_back() {
    let mut m = Memory::new();
    let value = U256::from_u64(0xABCD);
    let data = value.to_be_bytes();
    m.try_store_data(&U256::from_u64(64), &data).unwrap();
    assert_eq!(m.len(), 96);
    let word = m.load_word(&U256::from_u64(64)).unwrap();
    assert!(word.eq_word(&value));
}

#[test]
fn memory_expansion_cost_is_quadratic() {
    assert_eq!(gas_cost::memory_expansion_cost(32, 0).unwrap(), 3);
    assert_eq!(gas_cost::memory_expansion_cost(64, 32).unwrap(), 3);
    // 1024 words: 3 * 1024 + 1024 * 1024 / 512 = 3072 + 2048.
    assert_eq!(gas_cost::memory_expansion_cost(32768, 0).unwrap(), 5120);
    assert_eq!(gas_cost::memory_expansion_cost(0, 0).unwrap(), 0);
}

#[test]
fn sstore_gas_matches_the_berlin_schedule() {
    let zero = U256::from_u64(0);
    let one = U256::from_u64(1);
    // Cold slot, original == current == 0, writing 1: 22100.
    assert_eq!(gas_cost::sstore(&zero, &zero, &one, true, Fork::Berlin).unwrap(), 22100);
    // The same write on a warm slot: 20000.
    assert_eq!(gas_cost::sstore(&zero, &zero, &one, false, Fork::Berlin).unwrap(), 20000);
    // A no-op warm write: 100.
    assert_eq!(gas_cost::sstore(&one, &one, &one, false, Fork::Berlin).unwrap(), 100);
}

#[test]
fn call_gas_caps_forwarding_at_63_of_64(){
    // With 100 gas left after charges, at most 99 can be forwarded.
    let lots = U256::from_u64(1_000_000);
    let (cost, gas_limit) = gas_cost::call_gas(0, &lots, 100, false).unwrap();
    assert_eq!(cost, 99);
    assert_eq!(gas_limit, 99);
    let little = U256::from_u64(50);
    let (cost2, gas_limit2) = gas_cost::call_gas(0, &little, 100, false).unwrap();
    assert_eq!(cost2, 50);
    assert_eq!(gas_limit2, 50);
    // A value-bearing call adds the stipend to the callee only.
    let (cost3, gas_limit3) = gas_cost::call_gas(9000, &little, 10000, true).unwrap();
    assert_eq!(cost3, 9050);
    assert_eq!(gas_limit3, 50 + 2300);
}

#[test]
fn precompile_range_follows_the_fork() {
    let mut nine = [0u8; 20];
    nine[19] = 9;
    let mut ten = [0u8; 20];
    ten[19] = 10;
    let mut seventeen = [0u8; 20];
    seventeen[19] = 17;
    let mut eighteen = [0u8; 20];
    eighteen[19] = 18;
    assert!(is_precompile(&Address { octets: nine }, Fork::Berlin));
    assert!(!is_precompile(&Address { octets: ten }, Fork::Berlin));
    assert!(is_precompile(&Address { octets: ten }, Fork::Cancun));
    assert!(is_precompile(&Address { octets: seventeen }, Fork::Prague));
    assert!(!is_precompile(&Address { octets: eighteen }, Fork::Prague));
    assert!(!is_precompile(&Address { octets: [0u8; 20] }, Fork::Prague));
}

#[test]
fn create_address_matches_the_known_vector() {
    // keccak256(rlp([0x6ac7ea33f8831ea9dcc53393aaa88b25a785dbf0, 0]))[12..]
    // is the well-known 0xcd234a471b72ba2f1ccf0a70fcaba648a5eecd8d.
    let deployer_octets: [u8; 20] = [
        0x6a, 0xc7, 0xea, 0x33, 0xf8, 0x83, 0x1e, 0xa9, 0xdc, 0xc5, 0x33, 0x93, 0xaa, 0xa8,
        0x8b, 0x25, 0xa7, 0x85, 0xdb, 0xf0,
    ];
    let expected: [u8; 20] = [
        0xcd, 0x23, 0x4a, 0x47, 0x1b, 0x72, 0xba, 0x2f, 0x1c, 0xcf, 0x0a, 0x70, 0xfc, 0xab,
        0xa6, 0x48, 0xa5, 0xee, 0xcd, 0x8d,
    ];
    let got = calculate_create_address(Address { octets: deployer_octets }, 0);
    assert_eq!(got.octets, expected);
}

#[test]
fn keccak_digest_is_not_the_input() {
    // The Keccak-256 of the empty string starts c5 d2 46 01.
    let digest = levm::hashing::keccak256(&Vec::new());
    assert_eq!(digest.len(), 32);
    assert_eq!(digest[0], 0xC5);
    assert_eq!(digest[1], 0xD2);
    assert_eq!(digest[2], 0x46);
    assert_eq!(digest[3], 0x01);
}
