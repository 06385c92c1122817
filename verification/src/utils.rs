//! Warm-tracking account access, EIP-7702 delegation resolution, and
//! the CREATE/CREATE2 address formulas.

use vstd::prelude::*;
use crate::account::AccountInfo;
use crate::bytebuf::{bytes_get, bytes_len, bytes_view};
use crate::db::{read_through, GeneralizedDatabase};
use crate::errors::VMError;
use crate::hashing::{keccak256, keccak_of};
use crate::substate::Substate;
use crate::word::{Address, U256};

verus! {

/// Read an account and mark it warm; reports whether it was cold.
pub fn access_account(db: &mut GeneralizedDatabase, substate: &mut Substate, address: Address)
    -> (r: (AccountInfo, bool))
    requires
        old(db).wf(),
        old(substate).wf(),
    ensures
        final(db).wf(),
        final(substate).wf(),
        final(db).store == old(db).store,
        final(db).model() == read_through(old(db).store, old(db).model(), address@),
        r.0.model() == (
            final(db).model()[address@].0,
            final(db).model()[address@].1,
            final(db).model()[address@].2,
        ),
        r.1 == !old(substate).touched_accounts@.contains(address@),
        final(substate).touched_accounts@ == old(substate).touched_accounts@.insert(address@),
        final(substate).selfdestruct_set == old(substate).selfdestruct_set,
        final(substate).touched_storage_slots == old(substate).touched_storage_slots,
        final(substate).created_accounts == old(substate).created_accounts,
    {
    let address_was_cold = substate.touched_accounts.insert(address);
    let account = db.get_account(&address);
    (account.info, address_was_cold)
}

/// Whether `code` is an EIP-7702 delegation designator:
/// `0xef0100` followed by a 20-byte address.
pub open spec fn is_delegation_code(code: Seq<u8>) -> bool {
    code.len() == 23 && code[0] == 0xef && code[1] == 0x01 && code[2] == 0x00
}

/// The address a delegation designator points at.
pub open spec fn delegated_address(code: Seq<u8>) -> Seq<u8> {
    code.subrange(3, 23)
}

/// Resolve the code to run for a call target (EIP-7702): plain code is
/// returned as is at no cost; a delegation designator charges one warm
/// or cold access for the delegated address and yields its code.
/// Returns `(is_delegation, extra_gas, code_address, bytecode)`.
pub fn eip7702_get_code(db: &mut GeneralizedDatabase, substate: &mut Substate, address: Address)
    -> (r: (bool, u64, Address, bytes::Bytes))
    requires
        old(db).wf(),
        old(substate).wf(),
    ensures
        final(db).wf(),
        final(substate).wf(),
        final(db).store == old(db).store,
        final(substate).selfdestruct_set == old(substate).selfdestruct_set,
        final(substate).touched_storage_slots == old(substate).touched_storage_slots,
        final(substate).created_accounts == old(substate).created_accounts,
        ({
            let m1 = read_through(old(db).store, old(db).model(), address@);
            let code = m1[address@].2;
            if is_delegation_code(code) {
                let target = delegated_address(code);
                &&& r.0
                &&& r.2@ == target
                &&& r.1 == (if old(substate).touched_accounts@.contains(target) { 100int } else { 2600int })
                &&& final(substate).touched_accounts@ == old(substate).touched_accounts@.insert(target)
                &&& final(db).model() == read_through(old(db).store, m1, target)
                &&& bytes_view(r.3) == final(db).model()[target].2
            } else {
                &&& !r.0
                &&& r.1 == 0
                &&& r.2@ == address@
                &&& final(substate).touched_accounts@ == old(substate).touched_accounts@
                &&& final(db).model() == m1
                &&& bytes_view(r.3) == code
            }
        }),
{
    let account = db.get_account(&address);
    let code = account.info.bytecode;
    let is_delegation = bytes_len(&code) == 23 && bytes_get(&code, 0) == 0xef
        && bytes_get(&code, 1) == 0x01 && bytes_get(&code, 2) == 0x00;
    if is_delegation {
        let mut target_octets = [0u8; 20];
        let mut j: usize = 0;
        while j < 20
            invariant
                j <= 20,
                bytes_view(code).len() == 23,
                forall|k: int| 0 <= k < j ==> target_octets@[k] == bytes_view(code)[k + 3],
            decreases 20 - j,
        {
            target_octets[j] = bytes_get(&code, j + 3);
            j += 1;
        }
        let target = Address { octets: target_octets };
        proof {
            assert(target@ =~= delegated_address(bytes_view(code)));
        }
        let was_warm = substate.touched_accounts.contains(&target);
        let gas: u64 = if was_warm {
            100
        } else {
            2600
        };
        let _ = substate.touched_accounts.insert(target);
        let delegated = db.get_account(&target);
        (true, gas, target, delegated.info.bytecode)
    } else {
        (false, 0, address, code)
    }
}

/// Minimal big-endian encoding of `n`: no leading zero, empty for 0.
pub open spec fn min_be(n: nat) -> Seq<u8>
    decreases n,
{
    if n == 0 {
        Seq::empty()
    } else {
        min_be(n / 256).push((n % 256) as u8)
    }
}

fn min_be_exec(n: u64) -> (r: Vec<u8>)
    ensures
        r@ == min_be(n as nat),
    decreases n,
{
    if n == 0 {
        Vec::new()
    } else {
        let mut r = min_be_exec(n / 256);
        r.push((n % 256) as u8);
        proof {
            assert(r@ =~= min_be(n as nat));
        }
        r
    }
}

/// The RLP encoding of the two-item list `[address, nonce]`.
pub open spec fn rlp_address_nonce(addr: Seq<u8>, nonce: u64) -> Seq<u8> {
    let nonce_rlp: Seq<u8> = if nonce == 0 {
        seq![0x80u8]
    } else if nonce < 0x80 {
        seq![nonce as u8]
    } else {
        seq![(0x80 + min_be(nonce as nat).len()) as u8] + min_be(nonce as nat)
    };
    let payload = seq![0x94u8] + addr + nonce_rlp;
    seq![(0xC0 + payload.len()) as u8] + payload
}

/// The address CREATE deploys to:
/// `keccak256(rlp([deployer, nonce]))[12..]`.
pub fn calculate_create_address(deployer: Address, nonce: u64) -> (r: Address)
    ensures
        r@ == keccak_of(rlp_address_nonce(deployer@, nonce)).skip(12),
{
    let mut payload: Vec<u8> = Vec::new();
    payload.push(0x94);
    let mut j: usize = 0;
    while j < 20
        invariant
            j <= 20,
            payload@ =~= seq![0x94u8] + deployer@.take(j as int),
        decreases 20 - j,
    {
        payload.push(deployer.octets[j]);
        j += 1;
    }
    if nonce == 0 {
        payload.push(0x80);
    } else if nonce < 0x80 {
        payload.push(nonce as u8);
    } else {
        let nonce_bytes = min_be_exec(nonce);
        proof {
            lemma_min_be_len(nonce as nat);
        }
        payload.push(0x80 + nonce_bytes.len() as u8);
        let mut t: usize = 0;
        let nb_len = nonce_bytes.len();
        while t < nb_len
            invariant
                t <= nb_len,
                nb_len == nonce_bytes@.len(),
                payload@ =~= seq![0x94u8] + deployer@
                    + seq![(0x80 + nonce_bytes@.len()) as u8] + nonce_bytes@.take(t as int),
            decreases nb_len - t,
        {
            payload.push(nonce_bytes[t]);
            t += 1;
        }
    }
    let ghost payload_view = payload@;
    let mut encoded: Vec<u8> = Vec::new();
    proof {
        lemma_min_be_len(nonce as nat);
    }
    encoded.push(0xC0 + payload.len() as u8);
    let mut t: usize = 0;
    let p_len = payload.len();
    while t < p_len
        invariant
            t <= p_len,
            p_len == payload@.len(),
            payload@ == payload_view,
            p_len < 0x38,
            encoded@ =~= seq![(0xC0 + payload@.len()) as u8] + payload@.take(t as int),
        decreases p_len - t,
    {
        encoded.push(payload[t]);
        t += 1;
    }
    proof {
        assert(encoded@ =~= rlp_address_nonce(deployer@, nonce));
    }
    let digest = keccak256(&encoded);
    let mut out = [0u8; 20];
    let mut k: usize = 0;
    while k < 20
        invariant
            k <= 20,
            digest@.len() == 32,
            digest@ == keccak_of(rlp_address_nonce(deployer@, nonce)),
            forall|s: int| 0 <= s < k ==> out@[s] == digest@[s + 12],
        decreases 20 - k,
    {
        out[k] = digest[k + 12];
        k += 1;
    }
    proof {
        assert(out@ =~= keccak_of(rlp_address_nonce(deployer@, nonce)).skip(12));
    }
    Address { octets: out }
}

/// A `u64` takes at most eight bytes.
proof fn lemma_min_be_len(n: nat)
    requires
        n <= u64::MAX,
    ensures
        min_be(n).len() <= 8,
{
    crate::word::lemma_pow256_64();
    lemma_min_be_len_rec(n, 8);
}

proof fn lemma_min_be_len_rec(n: nat, k: nat)
    requires
        n < crate::word::pow256(k),
    ensures
        min_be(n).len() <= k,
    decreases k,
{
    if n > 0 {
        assert(k > 0);
        assert(n / 256 < crate::word::pow256((k - 1) as nat)) by (nonlinear_arith)
            requires
                n < crate::word::pow256(k),
                k > 0,
                crate::word::pow256(k) == 256 * crate::word::pow256((k - 1) as nat),
        ;
        lemma_min_be_len_rec(n / 256, (k - 1) as nat);
    }
}

/// The CREATE2 preimage: `0xff ++ deployer ++ salt ++ keccak(init)`.
pub open spec fn create2_preimage(deployer: Seq<u8>, salt: Seq<u8>, init_hash: Seq<u8>) -> Seq<u8> {
    seq![0xffu8] + deployer + salt + init_hash
}

/// The address CREATE2 deploys to:
/// `keccak256(0xff ++ deployer ++ salt ++ keccak256(init_code))[12..]`.
pub fn calculate_create2_address(deployer: Address, init_code: &Vec<u8>, salt: &U256) -> (r:
    Address)
    ensures
        r@ == keccak_of(create2_preimage(deployer@, salt@, keccak_of(init_code@))).skip(12),
{
    let init_hash = keccak256(init_code);
    let mut preimage: Vec<u8> = Vec::new();
    preimage.push(0xff);
    let mut j: usize = 0;
    while j < 20
        invariant
            j <= 20,
            preimage@ =~= seq![0xffu8] + deployer@.take(j as int),
        decreases 20 - j,
    {
        preimage.push(deployer.octets[j]);
        j += 1;
    }
    let mut t: usize = 0;
    while t < 32
        invariant
            t <= 32,
            preimage@ =~= seq![0xffu8] + deployer@ + salt@.take(t as int),
        decreases 32 - t,
    {
        preimage.push(salt.octets[t]);
        t += 1;
    }
    let mut s: usize = 0;
    while s < 32
        invariant
            s <= 32,
            init_hash@.len() == 32,
            init_hash@ == keccak_of(init_code@),
            preimage@ =~= seq![0xffu8] + deployer@ + salt@ + init_hash@.take(s as int),
        decreases 32 - s,
    {
        preimage.push(init_hash[s]);
        s += 1;
    }
    proof {
        assert(preimage@ =~= create2_preimage(deployer@, salt@, keccak_of(init_code@)));
    }
    let digest = keccak256(&preimage);
    let mut out = [0u8; 20];
    let mut k: usize = 0;
    while k < 20
        invariant
            k <= 20,
            digest@.len() == 32,
            digest@ == keccak_of(create2_preimage(deployer@, salt@, keccak_of(init_code@))),
            forall|u: int| 0 <= u < k ==> out@[u] == digest@[u + 12],
        decreases 20 - k,
    {
        out[k] = digest[k + 12];
        k += 1;
    }
    proof {
        assert(out@ =~= keccak_of(create2_preimage(deployer@, salt@, keccak_of(init_code@))).skip(
            12,
        ));
    }
    Address { octets: out }
}

} // verus!
