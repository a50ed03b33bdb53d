//! Incrementally assembled per-block state update.
//!
//! A block's state diff arrives as a sequence of per-contract diffs and class
//! declarations. The assembler keeps per-contract storage writes, optional
//! nonce and class updates, the distinguished system contract's writes in a
//! separate mapping, and the declared Cairo-zero and Sierra classes. Every
//! mapping is held as an association list with distinct keys; the contracts
//! below speak of the denoted maps.

use vstd::prelude::*;

use crate::ids::{
    CasmHash,
    ClassHash,
    ContractAddress,
    ContractNonce,
    SierraHash,
    StorageAddress,
    StorageValue,
};
use crate::kv::{
    kv_distinct,
    kv_view,
    lemma_kv_view_absent,
    lemma_kv_view_index,
    lemma_kv_view_push,
    lemma_kv_view_update,
};
use crate::proto::ContractStoredValue;

verus! {

/// A contract's class update. The sync layer records every class it sees as
/// a deployment; the consumer is responsible for determining whether the
/// class was really deployed or replaced.
#[derive(Clone, Copy, Debug, PartialEq, Eq, Structural)]
pub enum ContractClassUpdate {
    Deploy(ClassHash),
    Replace(ClassHash),
}

/// Updates of one ordinary contract within a block.
#[derive(Clone, Debug, PartialEq, Eq)]
pub struct ContractUpdate {
    pub storage: Vec<(StorageAddress, StorageValue)>,
    pub nonce: Option<ContractNonce>,
    pub class: Option<ContractClassUpdate>,
}

/// Updates of the system contract within a block: storage writes only.
#[derive(Clone, Debug, PartialEq, Eq)]
pub struct SystemContractUpdate {
    pub storage: Vec<(StorageAddress, StorageValue)>,
}

/// What a contract update denotes: a storage map plus the optional updates.
#[verifier::ext_equal]
pub ghost struct ContractUpdateModel {
    pub storage: Map<StorageAddress, StorageValue>,
    pub nonce: Option<ContractNonce>,
    pub class: Option<ContractClassUpdate>,
}

impl ContractUpdateModel {
    pub open spec fn empty() -> ContractUpdateModel {
        ContractUpdateModel { storage: Map::empty(), nonce: None, class: None }
    }
}

impl ContractUpdate {
    pub open spec fn wf(self) -> bool {
        kv_distinct(self.storage@)
    }

    pub open spec fn model(self) -> ContractUpdateModel {
        ContractUpdateModel { storage: kv_view(self.storage@), nonce: self.nonce, class: self.class }
    }
}

impl SystemContractUpdate {
    pub open spec fn wf(self) -> bool {
        kv_distinct(self.storage@)
    }

    pub open spec fn model(self) -> Map<StorageAddress, StorageValue> {
        kv_view(self.storage@)
    }
}

/// The entry a map holds for an address, or an empty update.
pub open spec fn contract_entry_or_empty(
    m: Map<ContractAddress, ContractUpdateModel>,
    address: ContractAddress,
) -> ContractUpdateModel {
    if m.contains_key(address) {
        m[address]
    } else {
        ContractUpdateModel::empty()
    }
}

/// The storage map a system entry holds for an address, or an empty map.
pub open spec fn system_entry_or_empty(
    m: Map<ContractAddress, Map<StorageAddress, StorageValue>>,
    address: ContractAddress,
) -> Map<StorageAddress, StorageValue> {
    if m.contains_key(address) {
        m[address]
    } else {
        Map::empty()
    }
}

/// A storage map after applying a sequence of writes in order; a later write
/// to the same key wins.
pub open spec fn storage_after(
    m: Map<StorageAddress, StorageValue>,
    values: Seq<ContractStoredValue>,
) -> Map<StorageAddress, StorageValue>
    decreases values.len(),
{
    if values.len() == 0 {
        m
    } else {
        storage_after(m, values.drop_last()).insert(values.last().key, values.last().value)
    }
}

pub open spec fn cu_pairs(s: Seq<(ContractAddress, ContractUpdate)>) -> Seq<
    (ContractAddress, ContractUpdateModel),
> {
    s.map_values(|p: (ContractAddress, ContractUpdate)| (p.0, p.1.model()))
}

pub open spec fn su_pairs(s: Seq<(ContractAddress, SystemContractUpdate)>) -> Seq<
    (ContractAddress, Map<StorageAddress, StorageValue>),
> {
    s.map_values(|p: (ContractAddress, SystemContractUpdate)| (p.0, p.1.model()))
}

/// State update of one block, assembled incrementally from peer responses.
#[derive(Clone, Debug, PartialEq, Eq)]
pub struct StateUpdateData {
    pub contract_updates: Vec<(ContractAddress, ContractUpdate)>,
    pub system_contract_updates: Vec<(ContractAddress, SystemContractUpdate)>,
    pub declared_cairo_classes: Vec<ClassHash>,
    pub declared_sierra_classes: Vec<(SierraHash, CasmHash)>,
}

impl StateUpdateData {
    pub open spec fn wf(self) -> bool {
        &&& kv_distinct(self.contract_updates@)
        &&& kv_distinct(self.system_contract_updates@)
        &&& kv_distinct(self.declared_sierra_classes@)
        &&& self.declared_cairo_classes@.no_duplicates()
        &&& forall|i: int|
            0 <= i < self.contract_updates@.len() ==> (#[trigger] self.contract_updates@[i]).1.wf()
        &&& forall|i: int|
            0 <= i < self.system_contract_updates@.len() ==> (
            #[trigger] self.system_contract_updates@[i]).1.wf()
    }

    /// The denoted mapping from contract address to its updates.
    pub open spec fn contracts(self) -> Map<ContractAddress, ContractUpdateModel> {
        kv_view(cu_pairs(self.contract_updates@))
    }

    /// The denoted mapping from system contract address to its storage map.
    pub open spec fn systems(self) -> Map<ContractAddress, Map<StorageAddress, StorageValue>> {
        kv_view(su_pairs(self.system_contract_updates@))
    }

    /// The set of declared Cairo-zero class hashes.
    pub open spec fn cairo_classes(self) -> Set<ClassHash> {
        self.declared_cairo_classes@.to_set()
    }

    /// The denoted mapping from declared Sierra class hash to compiled hash.
    pub open spec fn sierra_classes(self) -> Map<SierraHash, CasmHash> {
        kv_view(self.declared_sierra_classes@)
    }

    pub open spec fn is_empty_model(self) -> bool {
        &&& self.contracts() == Map::<ContractAddress, ContractUpdateModel>::empty()
        &&& self.systems() == Map::<ContractAddress, Map<StorageAddress, StorageValue>>::empty()
        &&& self.cairo_classes() == Set::<ClassHash>::empty()
        &&& self.sierra_classes() == Map::<SierraHash, CasmHash>::empty()
    }

    pub fn new() -> (r: StateUpdateData)
        ensures
            r.wf(),
            r.is_empty_model(),
            r.contract_updates@.len() == 0,
            r.system_contract_updates@.len() == 0,
            r.declared_cairo_classes@.len() == 0,
            r.declared_sierra_classes@.len() == 0,
    {
        let r = StateUpdateData {
            contract_updates: Vec::new(),
            system_contract_updates: Vec::new(),
            declared_cairo_classes: Vec::new(),
            declared_sierra_classes: Vec::new(),
        };
        proof {
            assert(r.declared_cairo_classes@.to_set() =~= Set::<ClassHash>::empty());
        }
        r
    }

    /// Applies one contract diff's storage writes under `address`, creating
    /// the entry if the diff is the first for this contract. The entry is
    /// created even when `values` is empty, as a diff with no writes still
    /// names the contract.
    pub fn apply_contract_storage(
        &mut self,
        address: ContractAddress,
        values: &Vec<ContractStoredValue>,
    )
        requires
            old(self).wf(),
        ensures
            final(self).wf(),
            final(self).contracts() == old(self).contracts().insert(
                address,
                ContractUpdateModel {
                    storage: storage_after(
                        contract_entry_or_empty(old(self).contracts(), address).storage,
                        values@,
                    ),
                    nonce: contract_entry_or_empty(old(self).contracts(), address).nonce,
                    class: contract_entry_or_empty(old(self).contracts(), address).class,
                },
            ),
            final(self).system_contract_updates == old(self).system_contract_updates,
            final(self).declared_cairo_classes == old(self).declared_cairo_classes,
            final(self).declared_sierra_classes == old(self).declared_sierra_classes,
    {
        let i = self.ensure_contract_entry(address);
        let ghost mid = *self;
        let ghost entry_model = contract_entry_or_empty(old(self).contracts(), address);
        let e = &mut self.contract_updates[i];
        apply_storage_values(&mut e.1.storage, values);
        proof {
            let s_mid = cu_pairs(mid.contract_updates@);
            assert(kv_distinct(s_mid));
            let new_model = ContractUpdateModel {
                storage: storage_after(entry_model.storage, values@),
                nonce: entry_model.nonce,
                class: entry_model.class,
            };
            assert(self.contract_updates@[i as int].1.model() =~= new_model);
            assert(cu_pairs(self.contract_updates@) =~= s_mid.update(
                i as int,
                (address, new_model),
            ));
            lemma_kv_view_update(s_mid, i as int, address, new_model);
            assert(self.contracts() == mid.contracts().insert(address, new_model));
            assert(mid.contracts().insert(address, new_model) =~= old(self).contracts().insert(
                address,
                new_model,
            ));
            assert forall|j: int, k: int|
                0 <= j < k < self.contract_updates@.len() implies (
            #[trigger] self.contract_updates@[j]).0 != (#[trigger] self.contract_updates@[k]).0 by {
                assert(self.contract_updates@[j].0 == mid.contract_updates@[j].0);
                assert(self.contract_updates@[k].0 == mid.contract_updates@[k].0);
            }
            assert forall|j: int| 0 <= j < self.contract_updates@.len() implies (
            #[trigger] self.contract_updates@[j]).1.wf() by {
                if j != i {
                    assert(self.contract_updates@[j] == mid.contract_updates@[j]);
                }
            }
        }
    }

    /// Records a nonce update for `address`, creating the entry if absent.
    pub fn set_contract_nonce(&mut self, address: ContractAddress, nonce: ContractNonce)
        requires
            old(self).wf(),
        ensures
            final(self).wf(),
            final(self).contracts() == old(self).contracts().insert(
                address,
                ContractUpdateModel {
                    storage: contract_entry_or_empty(old(self).contracts(), address).storage,
                    nonce: Some(nonce),
                    class: contract_entry_or_empty(old(self).contracts(), address).class,
                },
            ),
            final(self).system_contract_updates == old(self).system_contract_updates,
            final(self).declared_cairo_classes == old(self).declared_cairo_classes,
            final(self).declared_sierra_classes == old(self).declared_sierra_classes,
    {
        let i = self.ensure_contract_entry(address);
        let ghost mid = *self;
        let ghost entry_model = contract_entry_or_empty(old(self).contracts(), address);
        let e = &mut self.contract_updates[i];
        e.1.nonce = Some(nonce);
        proof {
            let s_mid = cu_pairs(mid.contract_updates@);
            assert(kv_distinct(s_mid));
            let new_model = ContractUpdateModel {
                storage: entry_model.storage,
                nonce: Some(nonce),
                class: entry_model.class,
            };
            assert(self.contract_updates@[i as int].1.model() =~= new_model);
            assert(cu_pairs(self.contract_updates@) =~= s_mid.update(
                i as int,
                (address, new_model),
            ));
            lemma_kv_view_update(s_mid, i as int, address, new_model);
            assert(mid.contracts().insert(address, new_model) =~= old(self).contracts().insert(
                address,
                new_model,
            ));
            assert forall|j: int, k: int|
                0 <= j < k < self.contract_updates@.len() implies (
            #[trigger] self.contract_updates@[j]).0 != (#[trigger] self.contract_updates@[k]).0 by {
                assert(self.contract_updates@[j].0 == mid.contract_updates@[j].0);
                assert(self.contract_updates@[k].0 == mid.contract_updates@[k].0);
            }
            assert forall|j: int| 0 <= j < self.contract_updates@.len() implies (
            #[trigger] self.contract_updates@[j]).1.wf() by {
                if j != i {
                    assert(self.contract_updates@[j] == mid.contract_updates@[j]);
                }
            }
        }
    }

    /// Records that `class_hash` was deployed at `address`, creating the
    /// entry if absent. Recorded as a deployment in every case; see
    /// [`ContractClassUpdate`].
    pub fn set_contract_class_deploy(&mut self, address: ContractAddress, class_hash: ClassHash)
        requires
            old(self).wf(),
        ensures
            final(self).wf(),
            final(self).contracts() == old(self).contracts().insert(
                address,
                ContractUpdateModel {
                    storage: contract_entry_or_empty(old(self).contracts(), address).storage,
                    nonce: contract_entry_or_empty(old(self).contracts(), address).nonce,
                    class: Some(ContractClassUpdate::Deploy(class_hash)),
                },
            ),
            final(self).system_contract_updates == old(self).system_contract_updates,
            final(self).declared_cairo_classes == old(self).declared_cairo_classes,
            final(self).declared_sierra_classes == old(self).declared_sierra_classes,
    {
        let i = self.ensure_contract_entry(address);
        let ghost mid = *self;
        let ghost entry_model = contract_entry_or_empty(old(self).contracts(), address);
        let e = &mut self.contract_updates[i];
        e.1.class = Some(ContractClassUpdate::Deploy(class_hash));
        proof {
            let s_mid = cu_pairs(mid.contract_updates@);
            assert(kv_distinct(s_mid));
            let new_model = ContractUpdateModel {
                storage: entry_model.storage,
                nonce: entry_model.nonce,
                class: Some(ContractClassUpdate::Deploy(class_hash)),
            };
            assert(self.contract_updates@[i as int].1.model() =~= new_model);
            assert(cu_pairs(self.contract_updates@) =~= s_mid.update(
                i as int,
                (address, new_model),
            ));
            lemma_kv_view_update(s_mid, i as int, address, new_model);
            assert(mid.contracts().insert(address, new_model) =~= old(self).contracts().insert(
                address,
                new_model,
            ));
            assert forall|j: int, k: int|
                0 <= j < k < self.contract_updates@.len() implies (
            #[trigger] self.contract_updates@[j]).0 != (#[trigger] self.contract_updates@[k]).0 by {
                assert(self.contract_updates@[j].0 == mid.contract_updates@[j].0);
                assert(self.contract_updates@[k].0 == mid.contract_updates@[k].0);
            }
            assert forall|j: int| 0 <= j < self.contract_updates@.len() implies (
            #[trigger] self.contract_updates@[j]).1.wf() by {
                if j != i {
                    assert(self.contract_updates@[j] == mid.contract_updates@[j]);
                }
            }
        }
    }

    /// Applies storage writes under the system contract's separate mapping.
    pub fn apply_system_storage(
        &mut self,
        address: ContractAddress,
        values: &Vec<ContractStoredValue>,
    )
        requires
            old(self).wf(),
        ensures
            final(self).wf(),
            final(self).systems() == old(self).systems().insert(
                address,
                storage_after(system_entry_or_empty(old(self).systems(), address), values@),
            ),
            final(self).contract_updates == old(self).contract_updates,
            final(self).declared_cairo_classes == old(self).declared_cairo_classes,
            final(self).declared_sierra_classes == old(self).declared_sierra_classes,
    {
        let i = self.ensure_system_entry(address);
        let ghost mid = *self;
        let ghost entry_model = system_entry_or_empty(old(self).systems(), address);
        let e = &mut self.system_contract_updates[i];
        apply_storage_values(&mut e.1.storage, values);
        proof {
            let s_mid = su_pairs(mid.system_contract_updates@);
            assert(kv_distinct(s_mid));
            let new_model = storage_after(entry_model, values@);
            assert(self.system_contract_updates@[i as int].1.model() =~= new_model);
            assert(su_pairs(self.system_contract_updates@) =~= s_mid.update(
                i as int,
                (address, new_model),
            ));
            lemma_kv_view_update(s_mid, i as int, address, new_model);
            assert(mid.systems().insert(address, new_model) =~= old(self).systems().insert(
                address,
                new_model,
            ));
            assert forall|j: int, k: int|
                0 <= j < k < self.system_contract_updates@.len() implies (
            #[trigger] self.system_contract_updates@[j]).0 != (
            #[trigger] self.system_contract_updates@[k]).0 by {
                assert(self.system_contract_updates@[j].0 == mid.system_contract_updates@[j].0);
                assert(self.system_contract_updates@[k].0 == mid.system_contract_updates@[k].0);
            }
            assert forall|j: int| 0 <= j < self.system_contract_updates@.len() implies (
            #[trigger] self.system_contract_updates@[j]).1.wf() by {
                if j != i {
                    assert(self.system_contract_updates@[j] == mid.system_contract_updates@[j]);
                }
            }
        }
    }

    /// Records a declared Cairo-zero class.
    pub fn declare_cairo_class(&mut self, class_hash: ClassHash)
        requires
            old(self).wf(),
        ensures
            final(self).wf(),
            final(self).cairo_classes() == old(self).cairo_classes().insert(class_hash),
            final(self).contract_updates == old(self).contract_updates,
            final(self).system_contract_updates == old(self).system_contract_updates,
            final(self).declared_sierra_classes == old(self).declared_sierra_classes,
    {
        let present = contains_class(&self.declared_cairo_classes, class_hash);
        if !present {
            self.declared_cairo_classes.push(class_hash);
            proof {
                old(self).declared_cairo_classes@.lemma_push_to_set_commute(class_hash);
            }
        } else {
            proof {
                assert(old(self).declared_cairo_classes@.contains(class_hash));
                assert(old(self).cairo_classes() =~= old(self).cairo_classes().insert(class_hash));
            }
        }
    }

    /// Records a declared Sierra class with the hash of its compiled form.
    pub fn declare_sierra_class(&mut self, sierra: SierraHash, casm: CasmHash)
        requires
            old(self).wf(),
        ensures
            final(self).wf(),
            final(self).sierra_classes() == old(self).sierra_classes().insert(sierra, casm),
            final(self).contract_updates == old(self).contract_updates,
            final(self).system_contract_updates == old(self).system_contract_updates,
            final(self).declared_cairo_classes == old(self).declared_cairo_classes,
    {
        match find_sierra(&self.declared_sierra_classes, sierra) {
            Some(i) => {
                proof {
                    lemma_kv_view_update(self.declared_sierra_classes@, i as int, sierra, casm);
                }
                let e = &mut self.declared_sierra_classes[i];
                *e = (sierra, casm);
            },
            None => {
                proof {
                    lemma_kv_view_push(self.declared_sierra_classes@, sierra, casm);
                }
                self.declared_sierra_classes.push((sierra, casm));
            },
        }
    }

    /// Finds the entry for `address` or creates an empty one, and returns its
    /// position.
    fn ensure_contract_entry(&mut self, address: ContractAddress) -> (i: usize)
        requires
            old(self).wf(),
        ensures
            final(self).wf(),
            i < final(self).contract_updates@.len(),
            final(self).contract_updates@[i as int].0 == address,
            final(self).contract_updates@[i as int].1.model() == contract_entry_or_empty(
                old(self).contracts(),
                address,
            ),
            final(self).contracts() == old(self).contracts().insert(
                address,
                contract_entry_or_empty(old(self).contracts(), address),
            ),
            final(self).system_contract_updates == old(self).system_contract_updates,
            final(self).declared_cairo_classes == old(self).declared_cairo_classes,
            final(self).declared_sierra_classes == old(self).declared_sierra_classes,
    {
        let ghost s0 = cu_pairs(old(self).contract_updates@);
        proof {
            assert(kv_distinct(s0));
        }
        match find_contract(&self.contract_updates, address) {
            Some(i) => {
                proof {
                    lemma_kv_view_index(s0, i as int);
                    assert(old(self).contracts().insert(address, old(self).contracts()[address])
                        =~= old(self).contracts());
                }
                i
            },
            None => {
                proof {
                    assert forall|j: int| 0 <= j < s0.len() implies (#[trigger] s0[j]).0
                        != address by {
                        assert(s0[j].0 == old(self).contract_updates@[j].0);
                    }
                    lemma_kv_view_absent(s0, address);
                    lemma_kv_view_push(s0, address, ContractUpdateModel::empty());
                }
                let i = self.contract_updates.len();
                self.contract_updates.push(
                    (address, ContractUpdate { storage: Vec::new(), nonce: None, class: None }),
                );
                proof {
                    assert(cu_pairs(self.contract_updates@) =~= s0.push(
                        (address, ContractUpdateModel::empty()),
                    ));
                    assert forall|j: int, k: int|
                        0 <= j < k < self.contract_updates@.len() implies (
                    #[trigger] self.contract_updates@[j]).0 != (
                    #[trigger] self.contract_updates@[k]).0 by {
                        if k < self.contract_updates@.len() - 1 {
                            assert(self.contract_updates@[j] == old(self).contract_updates@[j]);
                            assert(self.contract_updates@[k] == old(self).contract_updates@[k]);
                        } else {
                            assert(self.contract_updates@[j] == old(self).contract_updates@[j]);
                            assert(s0[j].0 == old(self).contract_updates@[j].0);
                        }
                    }
                }
                i
            },
        }
    }

    /// Finds the system entry for `address` or creates an empty one, and
    /// returns its position.
    fn ensure_system_entry(&mut self, address: ContractAddress) -> (i: usize)
        requires
            old(self).wf(),
        ensures
            final(self).wf(),
            i < final(self).system_contract_updates@.len(),
            final(self).system_contract_updates@[i as int].0 == address,
            final(self).system_contract_updates@[i as int].1.model() == system_entry_or_empty(
                old(self).systems(),
                address,
            ),
            final(self).systems() == old(self).systems().insert(
                address,
                system_entry_or_empty(old(self).systems(), address),
            ),
            final(self).contract_updates == old(self).contract_updates,
            final(self).declared_cairo_classes == old(self).declared_cairo_classes,
            final(self).declared_sierra_classes == old(self).declared_sierra_classes,
    {
        let ghost s0 = su_pairs(old(self).system_contract_updates@);
        proof {
            assert(kv_distinct(s0));
        }
        match find_system(&self.system_contract_updates, address) {
            Some(i) => {
                proof {
                    lemma_kv_view_index(s0, i as int);
                    assert(old(self).systems().insert(address, old(self).systems()[address]) =~= old(
                        self,
                    ).systems());
                }
                i
            },
            None => {
                proof {
                    assert forall|j: int| 0 <= j < s0.len() implies (#[trigger] s0[j]).0
                        != address by {
                        assert(s0[j].0 == old(self).system_contract_updates@[j].0);
                    }
                    lemma_kv_view_absent(s0, address);
                    lemma_kv_view_push(s0, address, Map::<StorageAddress, StorageValue>::empty());
                }
                let i = self.system_contract_updates.len();
                self.system_contract_updates.push(
                    (address, SystemContractUpdate { storage: Vec::new() }),
                );
                proof {
                    assert(su_pairs(self.system_contract_updates@) =~= s0.push(
                        (address, Map::<StorageAddress, StorageValue>::empty()),
                    ));
                    assert forall|j: int, k: int|
                        0 <= j < k < self.system_contract_updates@.len() implies (
                    #[trigger] self.system_contract_updates@[j]).0 != (
                    #[trigger] self.system_contract_updates@[k]).0 by {
                        if k < self.system_contract_updates@.len() - 1 {
                            assert(self.system_contract_updates@[j] == old(
                                self,
                            ).system_contract_updates@[j]);
                            assert(self.system_contract_updates@[k] == old(
                                self,
                            ).system_contract_updates@[k]);
                        } else {
                            assert(self.system_contract_updates@[j] == old(
                                self,
                            ).system_contract_updates@[j]);
                            assert(s0[j].0 == old(self).system_contract_updates@[j].0);
                        }
                    }
                }
                i
            },
        }
    }
}

impl Default for StateUpdateData {
    fn default() -> (r: StateUpdateData)
        ensures
            r.wf(),
            r.is_empty_model(),
            r.contract_updates@.len() == 0,
            r.system_contract_updates@.len() == 0,
            r.declared_cairo_classes@.len() == 0,
            r.declared_sierra_classes@.len() == 0,
    {
        StateUpdateData::new()
    }
}

/// Inserts or replaces one storage write, keeping keys distinct.
fn upsert_storage(storage: &mut Vec<(StorageAddress, StorageValue)>, key: StorageAddress, value: StorageValue)
    requires
        kv_distinct(old(storage)@),
    ensures
        kv_distinct(final(storage)@),
        kv_view(final(storage)@) == kv_view(old(storage)@).insert(key, value),
{
    match find_storage(storage, key) {
        Some(i) => {
            proof {
                lemma_kv_view_update(storage@, i as int, key, value);
            }
            let e = &mut storage[i];
            *e = (key, value);
        },
        None => {
            proof {
                lemma_kv_view_push(storage@, key, value);
            }
            storage.push((key, value));
        },
    }
}

/// Applies a diff's storage writes in arrival order.
fn apply_storage_values(
    storage: &mut Vec<(StorageAddress, StorageValue)>,
    values: &Vec<ContractStoredValue>,
)
    requires
        kv_distinct(old(storage)@),
    ensures
        kv_distinct(final(storage)@),
        kv_view(final(storage)@) == storage_after(kv_view(old(storage)@), values@),
{
    let ghost m0 = kv_view(old(storage)@);
    let mut i: usize = 0;
    while i < values.len()
        invariant
            i <= values.len(),
            kv_distinct(storage@),
            kv_view(storage@) == storage_after(m0, values@.subrange(0, i as int)),
        decreases values.len() - i,
    {
        let v = values[i];
        upsert_storage(storage, v.key, v.value);
        proof {
            assert(values@.subrange(0, i + 1).drop_last() =~= values@.subrange(0, i as int));
            assert(values@.subrange(0, i + 1).last() == values@[i as int]);
        }
        i = i + 1;
    }
    proof {
        assert(values@.subrange(0, values@.len() as int) =~= values@);
    }
}

fn find_contract(v: &Vec<(ContractAddress, ContractUpdate)>, address: ContractAddress) -> (r:
    Option<usize>)
    ensures
        match r {
            Some(i) => i < v@.len() && v@[i as int].0 == address,
            None => forall|j: int| 0 <= j < v@.len() ==> (#[trigger] v@[j]).0 != address,
        },
{
    let mut i: usize = 0;
    while i < v.len()
        invariant
            i <= v.len(),
            forall|j: int| 0 <= j < i ==> (#[trigger] v@[j]).0 != address,
        decreases v.len() - i,
    {
        if v[i].0 == address {
            return Some(i);
        }
        i = i + 1;
    }
    None
}

fn find_system(v: &Vec<(ContractAddress, SystemContractUpdate)>, address: ContractAddress) -> (r:
    Option<usize>)
    ensures
        match r {
            Some(i) => i < v@.len() && v@[i as int].0 == address,
            None => forall|j: int| 0 <= j < v@.len() ==> (#[trigger] v@[j]).0 != address,
        },
{
    let mut i: usize = 0;
    while i < v.len()
        invariant
            i <= v.len(),
            forall|j: int| 0 <= j < i ==> (#[trigger] v@[j]).0 != address,
        decreases v.len() - i,
    {
        if v[i].0 == address {
            return Some(i);
        }
        i = i + 1;
    }
    None
}

fn find_storage(v: &Vec<(StorageAddress, StorageValue)>, key: StorageAddress) -> (r: Option<usize>)
    ensures
        match r {
            Some(i) => i < v@.len() && v@[i as int].0 == key,
            None => forall|j: int| 0 <= j < v@.len() ==> (#[trigger] v@[j]).0 != key,
        },
{
    let mut i: usize = 0;
    while i < v.len()
        invariant
            i <= v.len(),
            forall|j: int| 0 <= j < i ==> (#[trigger] v@[j]).0 != key,
        decreases v.len() - i,
    {
        if v[i].0 == key {
            return Some(i);
        }
        i = i + 1;
    }
    None
}

fn find_sierra(v: &Vec<(SierraHash, CasmHash)>, sierra: SierraHash) -> (r: Option<usize>)
    ensures
        match r {
            Some(i) => i < v@.len() && v@[i as int].0 == sierra,
            None => forall|j: int| 0 <= j < v@.len() ==> (#[trigger] v@[j]).0 != sierra,
        },
{
    let mut i: usize = 0;
    while i < v.len()
        invariant
            i <= v.len(),
            forall|j: int| 0 <= j < i ==> (#[trigger] v@[j]).0 != sierra,
        decreases v.len() - i,
    {
        if v[i].0 == sierra {
            return Some(i);
        }
        i = i + 1;
    }
    None
}

fn contains_class(v: &Vec<ClassHash>, class_hash: ClassHash) -> (r: bool)
    ensures
        r <==> v@.contains(class_hash),
{
    let mut i: usize = 0;
    while i < v.len()
        invariant
            i <= v.len(),
            forall|j: int| 0 <= j < i ==> v@[j] != class_hash,
        decreases v.len() - i,
    {
        if v[i] == class_hash {
            proof {
                assert(v@.contains(class_hash));
            }
            return true;
        }
        i = i + 1;
    }
    proof {
        assert(forall|j: int| 0 <= j < v@.len() ==> v@[j] != class_hash);
    }
    false
}

} // verus!
