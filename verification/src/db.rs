//! The cached view over the pre-state store.
//!
//! The store is the transaction's read-only pre-state; the cache holds
//! every account the transaction has looked at or changed. All
//! observable state lives in models: maps from address bytes to
//! `(balance, nonce, code, storage)`.

use vstd::prelude::*;
use crate::account::{Account, AccountInfo, StorageSlot};
use crate::bytebuf::{bytes_clone, bytes_new, bytes_view};
use crate::errors::VMError;
use crate::kv::KvMap;
use crate::word::{Address, U256};

verus! {

/// What a transaction can observe of one account.
pub open spec fn account_model(a: Account) -> (nat, u64, Seq<u8>, Map<Seq<u8>, StorageSlot>) {
    a.model()
}

pub type CacheDB = KvMap<Address, Account>;

/// The observable content of the cache.
pub open spec fn cache_model(c: CacheDB) -> Map<Seq<u8>, (nat, u64, Seq<u8>, Map<Seq<u8>, StorageSlot>)> {
    c@.map_values(|a: Account| a.model())
}

pub open spec fn cache_wf(c: CacheDB) -> bool {
    c.wf() && forall|k: Seq<u8>| #[trigger] c@.contains_key(k) ==> c@[k].wf()
}

/// One account of the pre-state, with its stored slot values.
pub struct StoredAccount {
    pub balance: U256,
    pub bytecode: bytes::Bytes,
    pub nonce: u64,
    pub storage: KvMap<U256, U256>,
}

/// The read-only pre-state this transaction runs against.
pub struct Store {
    pub accounts: KvMap<Address, StoredAccount>,
}

impl Store {
    pub open spec fn wf(&self) -> bool {
        self.accounts.wf() && forall|k: Seq<u8>| #[trigger] self.accounts@.contains_key(k)
            ==> self.accounts@[k].storage.wf()
    }

    pub open spec fn has_account(&self, addr: Seq<u8>) -> bool {
        self.accounts@.contains_key(addr)
    }

    /// `(balance, nonce, code)` of a stored account; absent accounts read
    /// as empty.
    pub open spec fn account_info_model(&self, addr: Seq<u8>) -> (nat, u64, Seq<u8>) {
        if self.accounts@.contains_key(addr) {
            (
                self.accounts@[addr].balance.as_nat(),
                self.accounts@[addr].nonce,
                bytes_view(self.accounts@[addr].bytecode),
            )
        } else {
            (0, 0, Seq::<u8>::empty())
        }
    }

    /// The stored value of a slot; absent slots read as zero.
    pub open spec fn slot_value(&self, addr: Seq<u8>, key: Seq<u8>) -> nat {
        if self.accounts@.contains_key(addr) && self.accounts@[addr].storage@.contains_key(key) {
            self.accounts@[addr].storage@[key].as_nat()
        } else {
            0
        }
    }

    pub fn new() -> (r: Store)
        ensures
            r.wf(),
            r.accounts@ == Map::<Seq<u8>, StoredAccount>::empty(),
    {
        Store { accounts: KvMap::new() }
    }

    /// The account's info, read from the pre-state; absent reads as empty.
    pub fn get_account_info(&self, address: &Address) -> (r: AccountInfo)
        requires
            self.wf(),
        ensures
            r.model() == self.account_info_model(address@),
    {
        match self.accounts.get(address) {
            Some(stored) => AccountInfo {
                balance: stored.balance,
                bytecode: bytes_clone(&stored.bytecode),
                nonce: stored.nonce,
            },
            None => {
                let r = AccountInfo { balance: U256::zero(), bytecode: bytes_new(), nonce: 0 };
                proof {
                    crate::word::lemma_be_nat_zero(r.balance@);
                }
                r
            },
        }
    }

    /// A slot's stored value, zero when absent.
    pub fn get_storage_slot(&self, address: &Address, key: &U256) -> (r: U256)
        requires
            self.wf(),
        ensures
            r.as_nat() == self.slot_value(address@, key@),
    {
        match self.accounts.get(address) {
            Some(stored) => match stored.storage.get(key) {
                Some(v) => *v,
                None => U256::zero(),
            },
            None => U256::zero(),
        }
    }

    pub fn account_exists(&self, address: &Address) -> (r: bool)
        requires
            self.wf(),
        ensures
            r == self.has_account(address@),
    {
        self.accounts.contains_key(address)
    }
}

/// Every balance a read-through can produce is a 256-bit value.
pub proof fn lemma_read_through_balance_bound(db: GeneralizedDatabase, addr: Seq<u8>)
    requires
        db.wf(),
    ensures
        read_through(db.store, db.model(), addr)[addr].0 < crate::word::pow256(32),
{
    let base = read_through(db.store, db.model(), addr);
    if db.model().contains_key(addr) {
        assert(db.cache@.contains_key(addr));
        crate::word::lemma_be_nat_bound(db.cache@[addr].info.balance@);
    } else {
        if db.store.accounts@.contains_key(addr) {
            crate::word::lemma_be_nat_bound(db.store.accounts@[addr].balance@);
        } else {
            crate::word::lemma_pow256_positive(32);
        }
    }
}

/// The pre-state store together with the transaction's cache.
pub struct GeneralizedDatabase {
    pub store: Store,
    pub cache: CacheDB,
}

/// The cache after a read-through of `addr`: unchanged when cached,
/// otherwise extended with the account's stored info and no slots.
pub open spec fn read_through(
    store: Store,
    c: Map<Seq<u8>, (nat, u64, Seq<u8>, Map<Seq<u8>, StorageSlot>)>,
    addr: Seq<u8>,
) -> Map<Seq<u8>, (nat, u64, Seq<u8>, Map<Seq<u8>, StorageSlot>)> {
    if c.contains_key(addr) {
        c
    } else {
        c.insert(
            addr,
            (
                store.account_info_model(addr).0,
                store.account_info_model(addr).1,
                store.account_info_model(addr).2,
                Map::<Seq<u8>, StorageSlot>::empty(),
            ),
        )
    }
}

impl GeneralizedDatabase {
    pub open spec fn wf(&self) -> bool {
        self.store.wf() && cache_wf(self.cache)
    }

    pub open spec fn model(&self) -> Map<Seq<u8>, (nat, u64, Seq<u8>, Map<Seq<u8>, StorageSlot>)> {
        cache_model(self.cache)
    }

    /// Whether the account is known to the cache or the store.
    pub open spec fn spec_account_exists(&self, addr: Seq<u8>) -> bool {
        self.model().contains_key(addr) || self.store.has_account(addr)
    }

    pub fn new(store: Store, cache: CacheDB) -> (r: Self)
        ensures
            r.store == store,
            r.cache == cache,
    {
        Self { store, cache }
    }

    pub fn account_exists(&self, address: &Address) -> (r: bool)
        requires
            self.wf(),
        ensures
            r == self.spec_account_exists(address@),
    {
        self.cache.contains_key(address) || self.store.account_exists(address)
    }

    /// Read an account, caching it from the store on first touch.
    pub fn get_account(&mut self, address: &Address) -> (r: Account)
        requires
            old(self).wf(),
        ensures
            final(self).wf(),
            final(self).store == old(self).store,
            final(self).model() == read_through(old(self).store, old(self).model(), address@),
            r.wf(),
            final(self).model().contains_key(address@),
            r.model() == final(self).model()[address@],
    {
        let cached = match self.cache.get(address) {
            Some(a) => Some(a.duplicate()),
            None => None,
        };
        match cached {
            Some(a) => {
                proof {
                    assert(final(self).model() =~= read_through(
                        old(self).store,
                        old(self).model(),
                        address@,
                    ));
                }
                a
            },
            None => {
                let info = self.store.get_account_info(address);
                let account = Account { info, storage: KvMap::new() };
                let dup = account.duplicate();
                self.cache.insert(*address, account);
                proof {
                    assert(final(self).model() =~= read_through(
                        old(self).store,
                        old(self).model(),
                        address@,
                    ));
                    assert forall|k: Seq<u8>| #[trigger] final(self).cache@.contains_key(k)
                        implies final(self).cache@[k].wf() by {
                        if k != address@ {
                            assert(old(self).cache@.contains_key(k));
                        }
                    }
                }
                dup
            },
        }
    }

    /// Write an account into the cache under `address`.
    pub fn insert_account(&mut self, address: &Address, account: Account)
        requires
            old(self).wf(),
            account.wf(),
        ensures
            final(self).wf(),
            final(self).store == old(self).store,
            final(self).model() == old(self).model().insert(address@, account.model()),
    {
        self.cache.insert(*address, account);
        proof {
            assert(final(self).model() =~= old(self).model().insert(address@, account.model()));
            assert forall|k: Seq<u8>| #[trigger] final(self).cache@.contains_key(k)
                implies final(self).cache@[k].wf() by {
                if k != address@ {
                    assert(old(self).cache@.contains_key(k));
                }
            }
        }
    }

    /// Credit `amount` to an account, or fail with `BalanceOverflow`.
    pub fn increase_account_balance(&mut self, address: &Address, amount: &U256) -> (r: Result<
        (),
        VMError,
    >)
        requires
            old(self).wf(),
        ensures
            final(self).wf(),
            final(self).store == old(self).store,
            ({
                let base = read_through(old(self).store, old(self).model(), address@);
                let acct = base[address@];
                &&& (r is Ok <==> acct.0 + amount.as_nat() < crate::word::pow256(32))
                &&& r is Ok ==> final(self).model() == base.insert(
                    address@,
                    ((acct.0 + amount.as_nat()) as nat, acct.1, acct.2, acct.3),
                )
                &&& r is Err ==> r == Err::<(), VMError>(VMError::BalanceOverflow)
                    && final(self).model() == base
            }),
    {
        let mut account = self.get_account(address);
        let new_balance = match account.info.balance.checked_add(amount) {
            Some(b) => b,
            None => {
                return Err(VMError::BalanceOverflow);
            },
        };
        account.info.balance = new_balance;
        self.insert_account(address, account);
        proof {
            let base = read_through(old(self).store, old(self).model(), address@);
            assert(final(self).model() =~= base.insert(
                address@,
                ((base[address@].0 + amount.as_nat()) as nat, base[address@].1, base[address@].2, base[address@].3),
            ));
        }
        Ok(())
    }

    /// Debit `amount` from an account, or fail with `BalanceUnderflow`.
    pub fn decrease_account_balance(&mut self, address: &Address, amount: &U256) -> (r: Result<
        (),
        VMError,
    >)
        requires
            old(self).wf(),
        ensures
            final(self).wf(),
            final(self).store == old(self).store,
            ({
                let base = read_through(old(self).store, old(self).model(), address@);
                let acct = base[address@];
                &&& (r is Ok <==> amount.as_nat() <= acct.0)
                &&& r is Ok ==> final(self).model() == base.insert(
                    address@,
                    ((acct.0 - amount.as_nat()) as nat, acct.1, acct.2, acct.3),
                )
                &&& r is Err ==> r == Err::<(), VMError>(VMError::BalanceUnderflow)
                    && final(self).model() == base
            }),
    {
        let mut account = self.get_account(address);
        let new_balance = match account.info.balance.checked_sub(amount) {
            Some(b) => b,
            None => {
                return Err(VMError::BalanceUnderflow);
            },
        };
        account.info.balance = new_balance;
        self.insert_account(address, account);
        proof {
            let base = read_through(old(self).store, old(self).model(), address@);
            assert(final(self).model() =~= base.insert(
                address@,
                ((base[address@].0 - amount.as_nat()) as nat, base[address@].1, base[address@].2, base[address@].3),
            ));
        }
        Ok(())
    }

    /// Step an account's nonce, or fail with `NonceOverflow` at the cap.
    pub fn increment_account_nonce(&mut self, address: &Address) -> (r: Result<(), VMError>)
        requires
            old(self).wf(),
        ensures
            final(self).wf(),
            final(self).store == old(self).store,
            ({
                let base = read_through(old(self).store, old(self).model(), address@);
                let acct = base[address@];
                &&& (r is Ok <==> acct.1 < u64::MAX)
                &&& r is Ok ==> final(self).model() == base.insert(
                    address@,
                    (acct.0, (acct.1 + 1) as u64, acct.2, acct.3),
                )
                &&& r is Err ==> r == Err::<(), VMError>(VMError::NonceOverflow)
                    && final(self).model() == base
            }),
    {
        let mut account = self.get_account(address);
        let new_nonce = match account.info.nonce.checked_add(1) {
            Some(n) => n,
            None => {
                return Err(VMError::NonceOverflow);
            },
        };
        account.info.nonce = new_nonce;
        self.insert_account(address, account);
        proof {
            let base = read_through(old(self).store, old(self).model(), address@);
            assert(final(self).model() =~= base.insert(
                address@,
                (base[address@].0, (base[address@].1 + 1) as u64, base[address@].2, base[address@].3),
            ));
        }
        Ok(())
    }

    /// Overwrite an account's balance.
    pub fn set_account_balance(&mut self, address: &Address, balance: U256)
        requires
            old(self).wf(),
        ensures
            final(self).wf(),
            final(self).store == old(self).store,
            ({
                let base = read_through(old(self).store, old(self).model(), address@);
                let acct = base[address@];
                final(self).model() == base.insert(
                    address@,
                    (balance.as_nat(), acct.1, acct.2, acct.3),
                )
            }),
    {
        let mut account = self.get_account(address);
        account.info.balance = balance;
        self.insert_account(address, account);
        proof {
            let base = read_through(old(self).store, old(self).model(), address@);
            assert(final(self).model() =~= base.insert(
                address@,
                (balance.as_nat(), base[address@].1, base[address@].2, base[address@].3),
            ));
        }
    }

    /// Overwrite an account's code.
    pub fn set_account_bytecode(&mut self, address: &Address, code: bytes::Bytes)
        requires
            old(self).wf(),
        ensures
            final(self).wf(),
            final(self).store == old(self).store,
            ({
                let base = read_through(old(self).store, old(self).model(), address@);
                let acct = base[address@];
                final(self).model() == base.insert(
                    address@,
                    (acct.0, acct.1, bytes_view(code), acct.3),
                )
            }),
    {
        let mut account = self.get_account(address);
        account.info.bytecode = code;
        self.insert_account(address, account);
        proof {
            let base = read_through(old(self).store, old(self).model(), address@);
            assert(final(self).model() =~= base.insert(
                address@,
                (base[address@].0, base[address@].1, bytes_view(code), base[address@].3),
            ));
        }
    }

    /// Freeze the present storage values as this transaction's
    /// originals: every cached slot's `original_value` becomes its
    /// `current_value`.
    pub fn reset_original_values(&mut self)
        requires
            old(self).wf(),
        ensures
            final(self).wf(),
            final(self).store == old(self).store,
            final(self).model().dom() == old(self).model().dom(),
            forall|k: Seq<u8>| #[trigger] old(self).model().contains_key(k) ==> {
                &&& final(self).model()[k].0 == old(self).model()[k].0
                &&& final(self).model()[k].1 == old(self).model()[k].1
                &&& final(self).model()[k].2 == old(self).model()[k].2
                &&& final(self).model()[k].3.dom() == old(self).model()[k].3.dom()
                &&& forall|q: Seq<u8>| #[trigger] old(self).model()[k].3.contains_key(q) ==> {
                    &&& final(self).model()[k].3[q].current_value
                        == old(self).model()[k].3[q].current_value
                    &&& final(self).model()[k].3[q].original_value
                        == old(self).model()[k].3[q].current_value
                }
            },
    {
        let n = self.cache.entries.len();
        let mut entries: Vec<(Address, Account)> = Vec::new();
        let mut i: usize = 0;
        while i < n
            invariant
                i <= n,
                cache_wf(old(self).cache),
                *self == *old(self),
                n == self.cache.entries@.len(),
                entries@.len() == i,
                forall|t: int| #![all_triggers] 0 <= t < i ==> {
                    &&& entries@[t].0 == self.cache.entries@[t].0
                    &&& entries@[t].1.wf()
                    &&& entries@[t].1.info.balance == self.cache.entries@[t].1.info.balance
                    &&& entries@[t].1.info.nonce == self.cache.entries@[t].1.info.nonce
                    &&& entries@[t].1.info.code_view() == self.cache.entries@[t].1.info.code_view()
                    &&& entries@[t].1.storage@.dom() == self.cache.entries@[t].1.storage@.dom()
                    &&& forall|q: Seq<u8>|
                        #[trigger] self.cache.entries@[t].1.storage@.contains_key(q) ==> {
                        &&& entries@[t].1.storage@[q].current_value
                            == self.cache.entries@[t].1.storage@[q].current_value
                        &&& entries@[t].1.storage@[q].original_value
                            == self.cache.entries@[t].1.storage@[q].current_value
                    }
                },
            decreases n - i,
        {
            proof {
                crate::kv::lemma_entries_map(self.cache.entries@);
                assert(self.cache@.contains_key(self.cache.entries@[i as int].0@));
                assert(self.cache@[self.cache.entries@[i as int].0@]
                    == self.cache.entries@[i as int].1);
            }
            let e = &self.cache.entries[i];
            let m = e.1.storage.entries.len();
            let mut slots: Vec<(U256, StorageSlot)> = Vec::new();
            let mut j: usize = 0;
            while j < m
                invariant
                    j <= m,
                    e.1.storage.wf(),
                    m == e.1.storage.entries@.len(),
                    slots@.len() == j,
                    forall|t: int| #![all_triggers] 0 <= t < j ==> {
                        &&& slots@[t].0 == e.1.storage.entries@[t].0
                        &&& slots@[t].1.current_value == e.1.storage.entries@[t].1.current_value
                        &&& slots@[t].1.original_value == e.1.storage.entries@[t].1.current_value
                    },
                decreases m - j,
            {
                let se = &e.1.storage.entries[j];
                slots.push(
                    (
                        se.0,
                        StorageSlot {
                            original_value: se.1.current_value,
                            current_value: se.1.current_value,
                        },
                    ),
                );
                j += 1;
            }
            let storage = KvMap { entries: slots };
            proof {
                assert(crate::kv::keys_unique(storage.entries@)) by {
                    assert(forall|a: int, b: int| 0 <= a < b < m
                        ==> e.1.storage.entries@[a].0@ != e.1.storage.entries@[b].0@);
                }
                crate::kv::lemma_entries_map(storage.entries@);
                crate::kv::lemma_entries_map(e.1.storage.entries@);
                assert(storage@.dom() =~= e.1.storage@.dom()) by {
                    assert forall|q: Seq<u8>| storage@.contains_key(q)
                        implies e.1.storage@.contains_key(q) by {
                        let t = choose|t: int| 0 <= t < storage.entries@.len()
                            && storage.entries@[t].0@ == q;
                        assert(e.1.storage.entries@[t].0@ == q);
                    }
                    assert forall|q: Seq<u8>| e.1.storage@.contains_key(q)
                        implies storage@.contains_key(q) by {
                        let t = choose|t: int| 0 <= t < e.1.storage.entries@.len()
                            && e.1.storage.entries@[t].0@ == q;
                        assert(storage.entries@[t].0@ == q);
                    }
                }
                assert forall|q: Seq<u8>| #[trigger] e.1.storage@.contains_key(q) implies {
                    &&& storage@[q].current_value == e.1.storage@[q].current_value
                    &&& storage@[q].original_value == e.1.storage@[q].current_value
                } by {
                    let t = choose|t: int| 0 <= t < e.1.storage.entries@.len()
                        && e.1.storage.entries@[t].0@ == q;
                    assert(storage@.contains_key(q));
                    let u = choose|u: int| 0 <= u < storage.entries@.len()
                        && storage.entries@[u].0@ == q;
                    assert(e.1.storage@[q] == e.1.storage.entries@[t].1);
                    assert(storage@[q] == storage.entries@[u].1);
                    assert(storage.entries@[u].0@ == e.1.storage.entries@[u].0@);
                    assert(u == t) by {
                        if u != t {
                            assert(e.1.storage.entries@[u].0@ != e.1.storage.entries@[t].0@);
                        }
                    }
                }
            }
            let account = Account {
                info: e.1.info.duplicate(),
                storage,
            };
            entries.push((e.0, account));
            i += 1;
        }
        let new_cache = KvMap { entries };
        proof {
            assert(crate::kv::keys_unique(new_cache.entries@)) by {
                assert(forall|a: int, b: int| 0 <= a < b < n
                    ==> self.cache.entries@[a].0@ != self.cache.entries@[b].0@);
            }
        }
        let ghost oldstate = *self;
        self.cache = new_cache;
        proof {
            crate::kv::lemma_entries_map(self.cache.entries@);
            crate::kv::lemma_entries_map(oldstate.cache.entries@);
            assert forall|k: Seq<u8>| #[trigger] self.cache@.contains_key(k)
                implies self.cache@[k].wf() by {
                let t = choose|t: int| 0 <= t < self.cache.entries@.len()
                    && self.cache.entries@[t].0@ == k;
                assert(self.cache@[k] == self.cache.entries@[t].1);
            }
            assert(self.model().dom() =~= oldstate.model().dom()) by {
                assert forall|k: Seq<u8>| self.cache@.contains_key(k)
                    implies oldstate.cache@.contains_key(k) by {
                    let t = choose|t: int| 0 <= t < self.cache.entries@.len()
                        && self.cache.entries@[t].0@ == k;
                    assert(oldstate.cache.entries@[t].0@ == k);
                }
                assert forall|k: Seq<u8>| oldstate.cache@.contains_key(k)
                    implies self.cache@.contains_key(k) by {
                    let t = choose|t: int| 0 <= t < oldstate.cache.entries@.len()
                        && oldstate.cache.entries@[t].0@ == k;
                    assert(self.cache.entries@[t].0@ == k);
                }
            }
            assert forall|k: Seq<u8>| #[trigger] oldstate.model().contains_key(k) implies {
                &&& self.model()[k].0 == oldstate.model()[k].0
                &&& self.model()[k].1 == oldstate.model()[k].1
                &&& self.model()[k].2 == oldstate.model()[k].2
                &&& self.model()[k].3.dom() == oldstate.model()[k].3.dom()
                &&& forall|q: Seq<u8>| #[trigger] oldstate.model()[k].3.contains_key(q) ==> {
                    &&& self.model()[k].3[q].current_value
                        == oldstate.model()[k].3[q].current_value
                    &&& self.model()[k].3[q].original_value
                        == oldstate.model()[k].3[q].current_value
                }
            } by {
                let t = choose|t: int| 0 <= t < oldstate.cache.entries@.len()
                    && oldstate.cache.entries@[t].0@ == k;
                assert(self.cache.entries@[t].0@ == k);
                let u = choose|u: int| 0 <= u < self.cache.entries@.len()
                    && self.cache.entries@[u].0@ == k;
                assert(u == t) by {
                    if u != t {
                        assert(self.cache.entries@[u].0@ != self.cache.entries@[t].0@);
                    }
                }
                assert(self.cache@[k] == self.cache.entries@[t].1);
                assert(oldstate.cache@[k] == oldstate.cache.entries@[t].1);
            }
        }
    }

    /// Drop an account from the cache.
    pub fn remove_account(&mut self, address: &Address)
        requires
            old(self).wf(),
        ensures
            final(self).wf(),
            final(self).store == old(self).store,
            final(self).model() == old(self).model().remove(address@),
    {
        self.cache.remove(address);
        proof {
            assert(final(self).model() =~= old(self).model().remove(address@));
            assert forall|k: Seq<u8>| #[trigger] final(self).cache@.contains_key(k)
                implies final(self).cache@[k].wf() by {
                assert(old(self).cache@.contains_key(k));
            }
        }
    }
}

} // verus!
