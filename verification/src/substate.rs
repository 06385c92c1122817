//! Transaction-scoped bookkeeping, separate from the world state:
//! scheduled destructions, warm accounts and slots, accounts created
//! in this transaction.

use vstd::prelude::*;
use crate::kv::{KeySet, KvMap, MapKey};
use crate::word::{Address, U256};

verus! {

/// A transient-storage key: an address and a slot key, viewed as the
/// 52 bytes of the two laid side by side.
#[derive(Clone, Copy)]
pub struct TransientKey {
    pub addr: Address,
    pub key: U256,
}

impl View for TransientKey {
    type V = Seq<u8>;

    open spec fn view(&self) -> Seq<u8> {
        self.addr@ + self.key@
    }
}

impl MapKey for TransientKey {
    fn key_eq(&self, other: &Self) -> (r: bool)
        ensures
            r == (self@ == other@),
    {
        let r = self.addr.eq_address(&other.addr) && self.key.eq_word(&other.key);
        proof {
            if r {
                assert(self@ =~= other@);
            } else {
                if self@ == other@ {
                    assert(self.addr@ =~= self@.subrange(0, 20));
                    assert(other.addr@ =~= other@.subrange(0, 20));
                    assert(self.key@ =~= self@.subrange(20, 52));
                    assert(other.key@ =~= other@.subrange(20, 52));
                }
            }
        }
        r
    }
}

/// EIP-1153 transient storage: `(address, key)` to value, cleared at
/// the end of the transaction.
pub type TransientStorage = KvMap<TransientKey, U256>;

pub struct Substate {
    pub selfdestruct_set: KeySet<Address>,
    pub touched_accounts: KeySet<Address>,
    pub touched_storage_slots: KvMap<Address, KeySet<U256>>,
    pub created_accounts: KeySet<Address>,
}

/// The observable content of the warm-slot map.
pub open spec fn slots_model(m: KvMap<Address, KeySet<U256>>) -> Map<Seq<u8>, Set<Seq<u8>>> {
    m@.map_values(|s: KeySet<U256>| s@)
}

impl Substate {
    pub open spec fn wf(&self) -> bool {
        &&& self.selfdestruct_set.wf()
        &&& self.touched_accounts.wf()
        &&& self.touched_storage_slots.wf()
        &&& forall|k: Seq<u8>| #[trigger] self.touched_storage_slots@.contains_key(k)
            ==> self.touched_storage_slots@[k].wf()
        &&& self.created_accounts.wf()
    }

    /// Everything observable about the substate.
    pub open spec fn model(&self) -> (Set<Seq<u8>>, Set<Seq<u8>>, Map<Seq<u8>, Set<Seq<u8>>>, Set<
        Seq<u8>,
    >) {
        (
            self.selfdestruct_set@,
            self.touched_accounts@,
            slots_model(self.touched_storage_slots),
            self.created_accounts@,
        )
    }

    pub fn new() -> (r: Substate)
        ensures
            r.wf(),
            r.selfdestruct_set@ == Set::<Seq<u8>>::empty(),
            r.touched_accounts@ == Set::<Seq<u8>>::empty(),
            slots_model(r.touched_storage_slots) == Map::<Seq<u8>, Set<Seq<u8>>>::empty(),
            r.created_accounts@ == Set::<Seq<u8>>::empty(),
    {
        let r = Substate {
            selfdestruct_set: KeySet::new(),
            touched_accounts: KeySet::new(),
            touched_storage_slots: KvMap::new(),
            created_accounts: KeySet::new(),
        };
        proof {
            assert(slots_model(r.touched_storage_slots) =~= Map::<Seq<u8>, Set<Seq<u8>>>::empty());
        }
        r
    }

    /// Mark a storage slot warm; the result says whether it was cold.
    pub fn touch_slot(&mut self, address: &Address, key: &U256) -> (was_cold: bool)
        requires
            old(self).wf(),
        ensures
            final(self).wf(),
            final(self).selfdestruct_set == old(self).selfdestruct_set,
            final(self).touched_accounts == old(self).touched_accounts,
            final(self).created_accounts == old(self).created_accounts,
            was_cold == !(slots_model(old(self).touched_storage_slots).contains_key(address@)
                && slots_model(old(self).touched_storage_slots)[address@].contains(key@)),
            slots_model(final(self).touched_storage_slots) == slots_model(
                old(self).touched_storage_slots,
            ).insert(
                address@,
                if slots_model(old(self).touched_storage_slots).contains_key(address@) {
                    slots_model(old(self).touched_storage_slots)[address@].insert(key@)
                } else {
                    Set::<Seq<u8>>::empty().insert(key@)
                },
            ),
    {
        let mut slots = match self.touched_storage_slots.get(address) {
            Some(s) => s.duplicate(),
            None => KeySet::new(),
        };
        let was_cold = slots.insert(*key);
        self.touched_storage_slots.insert(*address, slots);
        proof {
            assert forall|k: Seq<u8>| #[trigger] final(self).touched_storage_slots@.contains_key(k)
                implies final(self).touched_storage_slots@[k].wf() by {
                if k != address@ {
                    assert(old(self).touched_storage_slots@.contains_key(k));
                }
            }
            assert(slots_model(final(self).touched_storage_slots) =~= slots_model(
                old(self).touched_storage_slots,
            ).insert(
                address@,
                if slots_model(old(self).touched_storage_slots).contains_key(address@) {
                    slots_model(old(self).touched_storage_slots)[address@].insert(key@)
                } else {
                    Set::<Seq<u8>>::empty().insert(key@)
                },
            ));
        }
        was_cold
    }

    /// A copy with the same observable state.
    pub fn duplicate(&self) -> (r: Substate)
        requires
            self.wf(),
        ensures
            r.wf(),
            r.model() == self.model(),
    {
        let mut entries: Vec<(Address, KeySet<U256>)> = Vec::new();
        let n = self.touched_storage_slots.entries.len();
        let mut i: usize = 0;
        while i < n
            invariant
                i <= n,
                self.wf(),
                n == self.touched_storage_slots.entries@.len(),
                entries@.len() == i,
                forall|t: int| #![all_triggers] 0 <= t < i ==> entries@[t].0
                    == self.touched_storage_slots.entries@[t].0
                    && entries@[t].1@ == self.touched_storage_slots.entries@[t].1@
                    && entries@[t].1.wf(),
            decreases n - i,
        {
            proof {
                crate::kv::lemma_entries_map(self.touched_storage_slots.entries@);
                assert(self.touched_storage_slots@.contains_key(
                    self.touched_storage_slots.entries@[i as int].0@,
                ));
                assert(self.touched_storage_slots@[
                    self.touched_storage_slots.entries@[i as int].0@
                ] == self.touched_storage_slots.entries@[i as int].1);
            }
            let e = &self.touched_storage_slots.entries[i];
            entries.push((e.0, e.1.duplicate()));
            i += 1;
        }
        let slots = KvMap { entries };
        proof {
            assert(crate::kv::keys_unique(slots.entries@)) by {
                assert(forall|a: int, b: int| 0 <= a < b < n
                    ==> self.touched_storage_slots.entries@[a].0@
                        != self.touched_storage_slots.entries@[b].0@);
            }
            lemma_slots_model_pointwise(slots, self.touched_storage_slots);
            crate::kv::lemma_entries_map(slots.entries@);
            assert forall|k: Seq<u8>| #[trigger] slots@.contains_key(k)
                implies slots@[k].wf() by {
                let t = choose|t: int| 0 <= t < slots.entries@.len() && slots.entries@[t].0@ == k;
                assert(slots@[k] == slots.entries@[t].1);
            }
        }
        Substate {
            selfdestruct_set: self.selfdestruct_set.duplicate(),
            touched_accounts: self.touched_accounts.duplicate(),
            touched_storage_slots: slots,
            created_accounts: self.created_accounts.duplicate(),
        }
    }
}

/// Two warm-slot maps with entrywise-equal keys and element sets have
/// the same model.
proof fn lemma_slots_model_pointwise(a: KvMap<Address, KeySet<U256>>, b: KvMap<
    Address,
    KeySet<U256>,
>)
    requires
        a.wf(),
        b.wf(),
        a.entries@.len() == b.entries@.len(),
        forall|t: int| #![all_triggers] 0 <= t < a.entries@.len() ==> a.entries@[t].0@
            == b.entries@[t].0@ && a.entries@[t].1@ == b.entries@[t].1@,
    ensures
        slots_model(a) == slots_model(b),
{
    crate::kv::lemma_entries_map(a.entries@);
    crate::kv::lemma_entries_map(b.entries@);
    let m1 = slots_model(a);
    let m2 = slots_model(b);
    assert forall|k: Seq<u8>| m1.contains_key(k) implies m2.contains_key(k) && m1[k] == m2[k] by {
        let t = choose|t: int| 0 <= t < a.entries@.len() && a.entries@[t].0@ == k;
        assert(b.entries@[t].0@ == k);
        assert(a@[k] == a.entries@[t].1);
        assert(b@[k] == b.entries@[t].1);
    }
    assert forall|k: Seq<u8>| m2.contains_key(k) implies m1.contains_key(k) by {
        let t = choose|t: int| 0 <= t < b.entries@.len() && b.entries@[t].0@ == k;
        assert(a.entries@[t].0@ == k);
    }
    assert(m1 =~= m2);
}

} // verus!
