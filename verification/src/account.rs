//! Accounts and their storage, as the interpreter sees them.

use vstd::prelude::*;
use crate::bytebuf::{bytes_clone, bytes_len, bytes_view};
use crate::kv::KvMap;
use crate::word::U256;

verus! {

/// One storage slot: the value at transaction start, frozen on first
/// access, and the latest written value.
#[derive(Clone, Copy)]
pub struct StorageSlot {
    pub original_value: U256,
    pub current_value: U256,
}

pub struct AccountInfo {
    pub balance: U256,
    pub bytecode: bytes::Bytes,
    pub nonce: u64,
}

pub struct Account {
    pub info: AccountInfo,
    pub storage: KvMap<U256, StorageSlot>,
}

impl AccountInfo {
    pub open spec fn code_view(&self) -> Seq<u8> {
        bytes_view(self.bytecode)
    }

    /// (balance, nonce, code) — everything observable about the info.
    pub open spec fn model(&self) -> (nat, u64, Seq<u8>) {
        (self.balance.as_nat(), self.nonce, self.code_view())
    }

    /// Empty per EIP-161: no balance, no nonce, no code.
    pub open spec fn spec_is_empty(&self) -> bool {
        self.balance.as_nat() == 0 && self.nonce == 0 && self.code_view().len() == 0
    }

    pub open spec fn spec_has_code_or_nonce(&self) -> bool {
        self.nonce != 0 || self.code_view().len() != 0
    }

    pub fn is_empty(&self) -> (r: bool)
        ensures
            r == self.spec_is_empty(),
    {
        self.balance.is_zero() && self.nonce == 0 && bytes_len(&self.bytecode) == 0
    }

    pub fn has_code_or_nonce(&self) -> (r: bool)
        ensures
            r == self.spec_has_code_or_nonce(),
    {
        self.nonce != 0 || bytes_len(&self.bytecode) != 0
    }

    pub fn duplicate(&self) -> (r: AccountInfo)
        ensures
            r.model() == self.model(),
            r.balance == self.balance,
            r.nonce == self.nonce,
    {
        AccountInfo {
            balance: self.balance,
            bytecode: bytes_clone(&self.bytecode),
            nonce: self.nonce,
        }
    }
}

impl Account {
    pub open spec fn wf(&self) -> bool {
        self.storage.wf()
    }

    /// Everything observable about the account.
    pub open spec fn model(&self) -> (nat, u64, Seq<u8>, Map<Seq<u8>, StorageSlot>) {
        (
            self.info.balance.as_nat(),
            self.info.nonce,
            self.info.code_view(),
            self.storage@,
        )
    }

    pub open spec fn spec_is_empty(&self) -> bool {
        self.info.spec_is_empty()
    }

    pub open spec fn spec_has_code_or_nonce(&self) -> bool {
        self.info.spec_has_code_or_nonce()
    }

    pub fn new(balance: U256, bytecode: bytes::Bytes, nonce: u64, storage: KvMap<U256, StorageSlot>)
        -> (r: Account)
        requires
            storage.wf(),
        ensures
            r.wf(),
            r.info.balance == balance,
            r.info.bytecode == bytecode,
            r.info.nonce == nonce,
            r.storage == storage,
    {
        Account { info: AccountInfo { balance, bytecode, nonce }, storage }
    }

    pub fn has_code_or_nonce(&self) -> (r: bool)
        ensures
            r == self.spec_has_code_or_nonce(),
    {
        self.info.has_code_or_nonce()
    }

    /// A copy with the same observable state.
    pub fn duplicate(&self) -> (r: Account)
        requires
            self.wf(),
        ensures
            r.wf(),
            r.model() == self.model(),
            r.info.balance == self.info.balance,
            r.info.nonce == self.info.nonce,
            r.storage@ == self.storage@,
            r.storage.entries@ == self.storage.entries@,
    {
        let mut entries: Vec<(U256, StorageSlot)> = Vec::new();
        let n = self.storage.entries.len();
        let mut i: usize = 0;
        while i < n
            invariant
                i <= n,
                n == self.storage.entries@.len(),
                entries@ =~= self.storage.entries@.take(i as int),
            decreases n - i,
        {
            let e = self.storage.entries[i];
            entries.push(e);
            i += 1;
        }
        proof {
            assert(entries@ =~= self.storage.entries@);
        }
        Account {
            info: self.info.duplicate(),
            storage: KvMap { entries },
        }
    }
}

} // verus!
