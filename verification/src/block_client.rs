//! Single-block client calls: get exactly one block's artifacts from one
//! peer's responses, with typed errors so the caller can attribute faults.
//!
//! Each function consumes the response sequence one peer produced for a
//! `limit = 1` request. The surrounding runtime iterates peers: a function
//! that reports "no decision" (no `Fin` arrived) sends the caller to the
//! next peer.

use vstd::prelude::*;

use crate::ids::{
    BlockNumber,
    Event,
    PeerId,
    Receipt,
    TransactionHash,
    TransactionVariant,
    system_contract_address,
};
use crate::ids::{CasmHash, ClassHash, ContractAddress, SierraHash, StorageAddress, StorageValue};
use crate::proto::{ClassesResponse, Decoded, EventsResponse, StateDiffsResponse, TransactionsResponse};
use crate::state_update::{
    ContractClassUpdate,
    ContractUpdateModel,
    StateUpdateData,
    contract_entry_or_empty,
    storage_after,
    system_entry_or_empty,
};
use crate::types::{ClassDefinition, ClassDefinitionsError, IncorrectStateDiffCount, ResponseParseError};

verus! {

/// The position of the first `Fin` in a transaction response sequence, or
/// its length when no `Fin` arrived.
pub open spec fn tx_fin_index(rs: Seq<TransactionsResponse>) -> int
    decreases rs.len(),
{
    if rs.len() == 0 {
        0
    } else if rs.first() is Fin {
        0
    } else {
        1 + tx_fin_index(rs.drop_first())
    }
}

proof fn lemma_tx_fin_index(rs: Seq<TransactionsResponse>)
    ensures
        0 <= tx_fin_index(rs) <= rs.len(),
        tx_fin_index(rs) < rs.len() ==> rs[tx_fin_index(rs)] is Fin,
        forall|j: int| 0 <= j < tx_fin_index(rs) ==> !((#[trigger] rs[j]) is Fin),
    decreases rs.len(),
{
    if rs.len() > 0 && !(rs.first() is Fin) {
        lemma_tx_fin_index(rs.drop_first());
        assert forall|j: int| 0 <= j < tx_fin_index(rs) implies !((#[trigger] rs[j]) is Fin) by {
            if j > 0 {
                assert(rs.drop_first()[j - 1] == rs[j]);
            }
        }
        if tx_fin_index(rs) < rs.len() {
            assert(rs.drop_first()[tx_fin_index(rs) - 1] == rs[tx_fin_index(rs)]);
        }
    }
}

/// The position of the first `Fin` in an event response sequence, or its
/// length when no `Fin` arrived.
pub open spec fn ev_fin_index(rs: Seq<EventsResponse>) -> int
    decreases rs.len(),
{
    if rs.len() == 0 {
        0
    } else if rs.first() is Fin {
        0
    } else {
        1 + ev_fin_index(rs.drop_first())
    }
}

proof fn lemma_ev_fin_index(rs: Seq<EventsResponse>)
    ensures
        0 <= ev_fin_index(rs) <= rs.len(),
        ev_fin_index(rs) < rs.len() ==> rs[ev_fin_index(rs)] is Fin,
        forall|j: int| 0 <= j < ev_fin_index(rs) ==> !((#[trigger] rs[j]) is Fin),
    decreases rs.len(),
{
    if rs.len() > 0 && !(rs.first() is Fin) {
        lemma_ev_fin_index(rs.drop_first());
        assert forall|j: int| 0 <= j < ev_fin_index(rs) implies !((#[trigger] rs[j]) is Fin) by {
            if j > 0 {
                assert(rs.drop_first()[j - 1] == rs[j]);
            }
        }
        if ev_fin_index(rs) < rs.len() {
            assert(rs.drop_first()[ev_fin_index(rs) - 1] == rs[ev_fin_index(rs)]);
        }
    }
}

/// The position of the first `Fin` in a state-diff response sequence, or its
/// length when no `Fin` arrived.
pub open spec fn sd_fin_index(rs: Seq<StateDiffsResponse>) -> int
    decreases rs.len(),
{
    if rs.len() == 0 {
        0
    } else if rs.first() is Fin {
        0
    } else {
        1 + sd_fin_index(rs.drop_first())
    }
}

proof fn lemma_sd_fin_index(rs: Seq<StateDiffsResponse>)
    ensures
        0 <= sd_fin_index(rs) <= rs.len(),
        sd_fin_index(rs) < rs.len() ==> rs[sd_fin_index(rs)] is Fin,
        forall|j: int| 0 <= j < sd_fin_index(rs) ==> !((#[trigger] rs[j]) is Fin),
    decreases rs.len(),
{
    if rs.len() > 0 && !(rs.first() is Fin) {
        lemma_sd_fin_index(rs.drop_first());
        assert forall|j: int| 0 <= j < sd_fin_index(rs) implies !((#[trigger] rs[j]) is Fin) by {
            if j > 0 {
                assert(rs.drop_first()[j - 1] == rs[j]);
            }
        }
        if sd_fin_index(rs) < rs.len() {
            assert(rs.drop_first()[sd_fin_index(rs) - 1] == rs[sd_fin_index(rs)]);
        }
    }
}

/// Takes the transactions a peer served for one block: every response before
/// the first `Fin`, each paired with its receipt completed by the position
/// of the transaction in the block, and each malformed item reported in
/// place so the caller sees which position failed to decode.
pub fn transactions_for_block(responses: &Vec<TransactionsResponse>) -> (r: Vec<
    Result<(TransactionVariant, Receipt), ResponseParseError>,
>)
    ensures
        r@.len() == tx_fin_index(responses@),
        forall|j: int|
            0 <= j < r@.len() ==> ((#[trigger] responses@[j]) matches
                TransactionsResponse::TransactionWithReceipt(d) && match d {
                Decoded::Valid(tr) => r@[j] == Ok::<
                    (TransactionVariant, Receipt),
                    ResponseParseError,
                >((tr.0, (Receipt { body: tr.1, transaction_index: j as u64 }))),
                Decoded::Malformed => r@[j] is Err,
            }),
{
    proof {
        lemma_tx_fin_index(responses@);
    }
    let mut r: Vec<Result<(TransactionVariant, Receipt), ResponseParseError>> = Vec::new();
    let mut k: usize = 0;
    while k < responses.len()
        invariant
            k <= responses.len(),
            r@.len() == k,
            forall|j: int| 0 <= j < k ==> !((#[trigger] responses@[j]) is Fin),
            forall|j: int|
                0 <= j < k ==> ((#[trigger] responses@[j]) matches
                    TransactionsResponse::TransactionWithReceipt(d) && match d {
                    Decoded::Valid(tr) => r@[j] == Ok::<
                        (TransactionVariant, Receipt),
                        ResponseParseError,
                    >((tr.0, (Receipt { body: tr.1, transaction_index: j as u64 }))),
                    Decoded::Malformed => r@[j] is Err,
                }),
        decreases responses.len() - k,
    {
        let resp = responses[k];
        match resp {
            TransactionsResponse::Fin => {
                proof {
                    lemma_tx_fin_index(responses@);
                }
                return r;
            },
            TransactionsResponse::TransactionWithReceipt(d) => match d {
                Decoded::Valid((t, body)) => {
                    r.push(Ok((t, Receipt { body, transaction_index: k as u64 })));
                },
                Decoded::Malformed => {
                    r.push(Err(ResponseParseError));
                },
            },
        }
        k = k + 1;
    }
    proof {
        lemma_tx_fin_index(responses@);
    }
    r
}

/// Takes the events a peer served for one block: every event before the
/// first `Fin`, tagged with the transaction hash it arrived under. Decoding
/// an event for this call cannot fail, so the caller hands in only decoded
/// events.
pub fn events_for_block(responses: &Vec<EventsResponse>) -> (r: Vec<(TransactionHash, Event)>)
    requires
        forall|j: int|
            0 <= j < ev_fin_index(responses@) ==> ((#[trigger] responses@[j]) matches
                EventsResponse::Event(item) && item.payload is Valid),
    ensures
        r@.len() == ev_fin_index(responses@),
        forall|j: int|
            0 <= j < r@.len() ==> ((#[trigger] responses@[j]) matches EventsResponse::Event(item)
                && item.payload matches Decoded::Valid(ev) && r@[j] == (item.transaction_hash, ev)),
{
    proof {
        lemma_ev_fin_index(responses@);
    }
    let mut r: Vec<(TransactionHash, Event)> = Vec::new();
    let mut k: usize = 0;
    while k < responses.len()
        invariant
            k <= responses.len(),
            r@.len() == k,
            forall|j: int|
                0 <= j < ev_fin_index(responses@) ==> ((#[trigger] responses@[j]) matches
                    EventsResponse::Event(item) && item.payload is Valid),
            forall|j: int| 0 <= j < k ==> !((#[trigger] responses@[j]) is Fin),
            forall|j: int|
                0 <= j < k ==> ((#[trigger] responses@[j]) matches EventsResponse::Event(item)
                    && item.payload matches Decoded::Valid(ev) && r@[j] == (
                item.transaction_hash,
                ev,
                )),
        decreases responses.len() - k,
    {
        let resp = responses[k];
        match resp {
            EventsResponse::Fin => {
                proof {
                    lemma_ev_fin_index(responses@);
                }
                return r;
            },
            EventsResponse::Event(item) => {
                proof {
                    lemma_ev_fin_index(responses@);
                    assert(k < ev_fin_index(responses@));
                }
                match item.payload {
                    Decoded::Valid(ev) => {
                        r.push((item.transaction_hash, ev));
                    },
                    Decoded::Malformed => unreached(),
                }
            },
        }
        k = k + 1;
    }
    proof {
        lemma_ev_fin_index(responses@);
    }
    r
}

/// The definitions one peer's responses denote for a block declaring `count`
/// classes: every definition before the first `Fin`, in order, or the first
/// fault. A definition that fails to decode faults with its kind; a peer
/// serving more or fewer definitions than `count` faults with the count
/// error. The sequence may end without `Fin`; the count still decides.
pub open spec fn class_defs_outcome(
    peer: PeerId,
    block: BlockNumber,
    count: int,
    rs: Seq<ClassesResponse>,
) -> Result<Seq<ClassDefinition>, ClassDefinitionsError>
    decreases rs.len(),
{
    if rs.len() == 0 {
        if count == 0 {
            Ok(Seq::empty())
        } else {
            Err(ClassDefinitionsError::IncorrectClassDefinitionCount(peer))
        }
    } else {
        match rs.first() {
            ClassesResponse::Fin => {
                if count == 0 {
                    Ok(Seq::empty())
                } else {
                    Err(ClassDefinitionsError::IncorrectClassDefinitionCount(peer))
                }
            },
            ClassesResponse::Cairo0Class(d) => match d {
                Decoded::Malformed => Err(ClassDefinitionsError::CairoDefinitionError(peer)),
                Decoded::Valid(definition) => {
                    if count <= 0 {
                        Err(ClassDefinitionsError::IncorrectClassDefinitionCount(peer))
                    } else {
                        match class_defs_outcome(peer, block, count - 1, rs.drop_first()) {
                            Ok(defs) => Ok(
                                seq![
                                    (ClassDefinition::Cairo { block_number: block, definition }),
                                ] + defs,
                            ),
                            Err(e) => Err(e),
                        }
                    }
                },
            },
            ClassesResponse::Cairo1Class(d) => match d {
                Decoded::Malformed => Err(ClassDefinitionsError::SierraDefinitionError(peer)),
                Decoded::Valid(definition) => {
                    if count <= 0 {
                        Err(ClassDefinitionsError::IncorrectClassDefinitionCount(peer))
                    } else {
                        match class_defs_outcome(peer, block, count - 1, rs.drop_first()) {
                            Ok(defs) => Ok(
                                seq![
                                    (ClassDefinition::Sierra {
                                        block_number: block,
                                        sierra_definition: definition,
                                    }),
                                ] + defs,
                            ),
                            Err(e) => Err(e),
                        }
                    }
                },
            },
        }
    }
}

/// Collects the class definitions one peer served for a block declaring
/// `declared_classes_count` classes. The result is exactly what the
/// responses denote: the definitions in arrival order, each carrying the
/// block number, or the first fault attributed to the peer.
#[verifier::loop_isolation(false)]
pub fn class_definitions_for_block(
    peer: PeerId,
    block: BlockNumber,
    declared_classes_count: u64,
    responses: Vec<ClassesResponse>,
) -> (r: Result<(PeerId, Vec<ClassDefinition>), ClassDefinitionsError>)
    ensures
        ({
            let out = class_defs_outcome(peer, block, declared_classes_count as int, responses@);
            match r {
                Ok((p, defs)) => p == peer && (out matches Ok(s) && defs@ == s),
                Err(e) => (out matches Err(e2) && e == e2),
            }
        }),
{
    let ghost rs = responses@;
    let ghost count0 = declared_classes_count as int;
    let mut current_count: u64 = declared_classes_count;
    let mut class_definitions: Vec<ClassDefinition> = Vec::new();
    let total = responses.len();
    let mut rest = responses;
    let mut k: usize = 0;
    let mut saw_fin = false;
    proof {
        assert(rs.skip(0) =~= rs);
        let tail = class_defs_outcome(peer, block, count0, rs);
        match tail {
            Ok(defs) => {
                assert(class_definitions@ + defs =~= defs);
            },
            Err(_) => {},
        }
    }
    while k < total && !saw_fin
        invariant
            k <= total,
            total == rs.len(),
            !saw_fin ==> total == rest@.len() + k,
            !saw_fin ==> rest@ == rs.skip(k as int),
            ({
                let tail = class_defs_outcome(peer, block, current_count as int, rs.skip(k as int));
                !saw_fin ==> class_defs_outcome(peer, block, count0, rs) == (match tail {
                    Ok(defs) => Ok::<Seq<ClassDefinition>, ClassDefinitionsError>(
                        class_definitions@ + defs,
                    ),
                    Err(e) => Err(e),
                })
            }),
            saw_fin ==> class_defs_outcome(peer, block, count0, rs) == Ok::<
                Seq<ClassDefinition>,
                ClassDefinitionsError,
            >(class_definitions@),
        decreases total - k,
    {
        let resp = rest.remove(0);
        proof {
            assert(rs.skip(k as int).first() == rs[k as int]);
            assert(rs.skip(k as int).drop_first() =~= rs.skip(k + 1));
        }
        match resp {
            ClassesResponse::Fin => {
                if current_count != 0 {
                    return Err(ClassDefinitionsError::IncorrectClassDefinitionCount(peer));
                }
                saw_fin = true;
                proof {
                    assert(class_definitions@ + Seq::<ClassDefinition>::empty()
                        =~= class_definitions@);
                }
            },
            ClassesResponse::Cairo0Class(d) => match d {
                Decoded::Malformed => {
                    return Err(ClassDefinitionsError::CairoDefinitionError(peer));
                },
                Decoded::Valid(definition) => {
                    if current_count == 0 {
                        return Err(ClassDefinitionsError::IncorrectClassDefinitionCount(peer));
                    }
                    current_count = current_count - 1;
                    let ghost before = class_definitions@;
                    let item = ClassDefinition::Cairo { block_number: block, definition };
                    let ghost item_g = item;
                    class_definitions.push(item);
                    proof {
                        let tail1 = class_defs_outcome(
                            peer,
                            block,
                            current_count as int,
                            rs.skip(k + 1),
                        );
                        match tail1 {
                            Ok(defs) => {
                                assert(before + (seq![item_g] + defs) =~= class_definitions@
                                    + defs);
                            },
                            Err(_) => {},
                        }
                    }
                },
            },
            ClassesResponse::Cairo1Class(d) => match d {
                Decoded::Malformed => {
                    return Err(ClassDefinitionsError::SierraDefinitionError(peer));
                },
                Decoded::Valid(definition) => {
                    if current_count == 0 {
                        return Err(ClassDefinitionsError::IncorrectClassDefinitionCount(peer));
                    }
                    current_count = current_count - 1;
                    let ghost before = class_definitions@;
                    let item = ClassDefinition::Sierra {
                        block_number: block,
                        sierra_definition: definition,
                    };
                    let ghost item_g = item;
                    class_definitions.push(item);
                    proof {
                        let tail1 = class_defs_outcome(
                            peer,
                            block,
                            current_count as int,
                            rs.skip(k + 1),
                        );
                        match tail1 {
                            Ok(defs) => {
                                assert(before + (seq![item_g] + defs) =~= class_definitions@
                                    + defs);
                            },
                            Err(_) => {},
                        }
                    }
                },
            },
        }
        k = k + 1;
    }
    if saw_fin {
        return Ok((peer, class_definitions));
    }
    proof {
        assert(rs.skip(total as int) =~= Seq::<ClassesResponse>::empty());
    }
    if current_count != 0 {
        return Err(ClassDefinitionsError::IncorrectClassDefinitionCount(peer));
    }
    proof {
        assert(class_definitions@ + Seq::<ClassDefinition>::empty() =~= class_definitions@);
    }
    Ok((peer, class_definitions))
}

/// The running state of folding one peer's state-diff responses for one
/// block: the remaining item budget, whether the peer over-delivered, and
/// the assembled maps.
#[verifier::ext_equal]
pub ghost struct StateDiffFold {
    pub remaining: int,
    pub failed: bool,
    pub contracts: Map<ContractAddress, ContractUpdateModel>,
    pub systems: Map<ContractAddress, Map<StorageAddress, StorageValue>>,
    pub cairo_classes: Set<ClassHash>,
    pub sierra_classes: Map<SierraHash, CasmHash>,
}

pub open spec fn state_diff_fold_init(count: int) -> StateDiffFold {
    StateDiffFold {
        remaining: count,
        failed: false,
        contracts: Map::empty(),
        systems: Map::empty(),
        cairo_classes: Set::empty(),
        sierra_classes: Map::empty(),
    }
}

/// One response applied to the fold. A contract diff costs one budget unit
/// per storage write, plus one for a nonce and one for a class hash on an
/// ordinary contract; a class declaration costs one. A cost above the
/// remaining budget marks the fold failed, and a failed fold absorbs
/// everything after it.
pub open spec fn state_diff_fold_step(acc: StateDiffFold, resp: StateDiffsResponse) -> StateDiffFold {
    if acc.failed {
        acc
    } else {
        match resp {
            StateDiffsResponse::ContractDiff(cd) => {
                if cd.address == system_contract_address() {
                    let cost = cd.values@.len() as int;
                    if cost > acc.remaining {
                        StateDiffFold {
                            remaining: acc.remaining,
                            failed: true,
                            contracts: acc.contracts,
                            systems: acc.systems,
                            cairo_classes: acc.cairo_classes,
                            sierra_classes: acc.sierra_classes,
                        }
                    } else {
                        StateDiffFold {
                            remaining: acc.remaining - cost,
                            failed: false,
                            contracts: acc.contracts,
                            systems: acc.systems.insert(
                                cd.address,
                                storage_after(
                                    system_entry_or_empty(acc.systems, cd.address),
                                    cd.values@,
                                ),
                            ),
                            cairo_classes: acc.cairo_classes,
                            sierra_classes: acc.sierra_classes,
                        }
                    }
                } else {
                    let cost = cd.values@.len() + (if cd.nonce is Some {
                        1int
                    } else {
                        0int
                    }) + (if cd.class_hash is Some {
                        1int
                    } else {
                        0int
                    });
                    if cost > acc.remaining {
                        StateDiffFold {
                            remaining: acc.remaining,
                            failed: true,
                            contracts: acc.contracts,
                            systems: acc.systems,
                            cairo_classes: acc.cairo_classes,
                            sierra_classes: acc.sierra_classes,
                        }
                    } else {
                        let e0 = contract_entry_or_empty(acc.contracts, cd.address);
                        StateDiffFold {
                            remaining: acc.remaining - cost,
                            failed: false,
                            contracts: acc.contracts.insert(
                                cd.address,
                                (ContractUpdateModel {
                                    storage: storage_after(e0.storage, cd.values@),
                                    nonce: if cd.nonce is Some {
                                        cd.nonce
                                    } else {
                                        e0.nonce
                                    },
                                    class: match cd.class_hash {
                                        Some(ch) => Some(ContractClassUpdate::Deploy(ch)),
                                        None => e0.class,
                                    },
                                }),
                            ),
                            systems: acc.systems,
                            cairo_classes: acc.cairo_classes,
                            sierra_classes: acc.sierra_classes,
                        }
                    }
                }
            },
            StateDiffsResponse::DeclaredClass(dc) => {
                if acc.remaining < 1 {
                    StateDiffFold {
                        remaining: acc.remaining,
                        failed: true,
                        contracts: acc.contracts,
                        systems: acc.systems,
                        cairo_classes: acc.cairo_classes,
                        sierra_classes: acc.sierra_classes,
                    }
                } else {
                    match dc.compiled_class_hash {
                        Some(casm) => StateDiffFold {
                            remaining: acc.remaining - 1,
                            failed: false,
                            contracts: acc.contracts,
                            systems: acc.systems,
                            cairo_classes: acc.cairo_classes,
                            sierra_classes: acc.sierra_classes.insert(
                                (SierraHash(dc.class_hash.0)),
                                casm,
                            ),
                        },
                        None => StateDiffFold {
                            remaining: acc.remaining - 1,
                            failed: false,
                            contracts: acc.contracts,
                            systems: acc.systems,
                            cairo_classes: acc.cairo_classes.insert(dc.class_hash),
                            sierra_classes: acc.sierra_classes,
                        },
                    }
                }
            },
            StateDiffsResponse::Fin => acc,
        }
    }
}

/// The fold of the first `i` responses.
pub open spec fn state_diff_fold(count: int, rs: Seq<StateDiffsResponse>, i: int) -> StateDiffFold
    decreases i,
{
    if i <= 0 {
        state_diff_fold_init(count)
    } else {
        state_diff_fold_step(state_diff_fold(count, rs, i - 1), rs[i - 1])
    }
}

proof fn lemma_fold_failed_monotone(count: int, rs: Seq<StateDiffsResponse>, i: int, j: int)
    requires
        0 <= i <= j,
        state_diff_fold(count, rs, i).failed,
    ensures
        state_diff_fold(count, rs, j).failed,
    decreases j - i,
{
    if j > i {
        lemma_fold_failed_monotone(count, rs, i, j - 1);
    }
}

/// Assembles the state update one peer served for one block whose diff
/// totals `state_diff_length` elementary items. `Err` reports a peer that
/// served a different number of items than expected; `Ok(None)` reports a
/// peer whose responses ended without `Fin`, so the caller asks the next
/// peer; `Ok(Some(..))` carries the assembled update, exactly the fold of
/// the responses before the first `Fin`.
#[verifier::loop_isolation(false)]
pub fn state_diff_for_block(
    peer: PeerId,
    state_diff_length: u64,
    responses: &Vec<StateDiffsResponse>,
) -> (r: Result<Option<(PeerId, StateUpdateData)>, IncorrectStateDiffCount>)
    ensures
        ({
            let rs = responses@;
            let f = sd_fin_index(rs);
            let acc = state_diff_fold(state_diff_length as int, rs, f);
            if acc.failed {
                r == Err::<Option<(PeerId, StateUpdateData)>, IncorrectStateDiffCount>(
                    IncorrectStateDiffCount(peer),
                )
            } else if f < rs.len() {
                if acc.remaining == 0 {
                    r matches Ok(Some((p, sd))) && p == peer && sd.wf() && sd.contracts()
                        == acc.contracts && sd.systems() == acc.systems && sd.cairo_classes()
                        == acc.cairo_classes && sd.sierra_classes() == acc.sierra_classes
                } else {
                    r == Err::<Option<(PeerId, StateUpdateData)>, IncorrectStateDiffCount>(
                        IncorrectStateDiffCount(peer),
                    )
                }
            } else {
                r matches Ok(None)
            }
        }),
{
    let ghost rs = responses@;
    let ghost count0 = state_diff_length as int;
    proof {
        lemma_sd_fin_index(rs);
    }
    let mut current_count: u64 = state_diff_length;
    let mut state_diff = StateUpdateData::new();
    let mut k: usize = 0;
    while k < responses.len()
        invariant
            k <= rs.len(),
            rs == responses@,
            count0 == state_diff_length as int,
            forall|j: int| 0 <= j < k ==> !((#[trigger] rs[j]) is Fin),
            state_diff.wf(),
            ({
                let acc = state_diff_fold(count0, rs, k as int);
                &&& !acc.failed
                &&& acc.remaining == current_count
                &&& state_diff.contracts() == acc.contracts
                &&& state_diff.systems() == acc.systems
                &&& state_diff.cairo_classes() == acc.cairo_classes
                &&& state_diff.sierra_classes() == acc.sierra_classes
            }),
        decreases responses.len() - k,
    {
        let ghost acc_k = state_diff_fold(count0, rs, k as int);
        proof {
            assert(state_diff_fold(count0, rs, k + 1) == state_diff_fold_step(acc_k, rs[k as int]));
        }
        let resp = &responses[k];
        match resp {
            StateDiffsResponse::Fin => {
                proof {
                    lemma_sd_fin_index(rs);
                    assert(sd_fin_index(rs) == k);
                }
                if current_count != 0 {
                    return Err(IncorrectStateDiffCount(peer));
                }
                return Ok(Some((peer, state_diff)));
            },
            StateDiffsResponse::ContractDiff(cd) => {
                let n = cd.values.len();
                if (n as u64) > current_count {
                    proof {
                        lemma_fold_failed_monotone(count0, rs, k + 1, sd_fin_index(rs));
                    }
                    return Err(IncorrectStateDiffCount(peer));
                }
                current_count = current_count - (n as u64);
                if cd.address == ContractAddress::one() {
                    state_diff.apply_system_storage(cd.address, &cd.values);
                } else {
                    let ghost sd0 = state_diff;
                    let ghost e0 = contract_entry_or_empty(sd0.contracts(), cd.address);
                    let ghost st1 = storage_after(e0.storage, cd.values@);
                    state_diff.apply_contract_storage(cd.address, &cd.values);
                    let ghost sd1 = state_diff;
                    if let Some(nonce) = cd.nonce {
                        if current_count == 0 {
                            proof {
                                lemma_fold_failed_monotone(count0, rs, k + 1, sd_fin_index(rs));
                            }
                            return Err(IncorrectStateDiffCount(peer));
                        }
                        current_count = current_count - 1;
                        state_diff.set_contract_nonce(cd.address, nonce);
                        proof {
                            assert(contract_entry_or_empty(sd1.contracts(), cd.address)
                                == (ContractUpdateModel {
                                storage: st1,
                                nonce: e0.nonce,
                                class: e0.class,
                            }));
                            assert(state_diff.contracts() =~= sd0.contracts().insert(
                                cd.address,
                                (ContractUpdateModel {
                                    storage: st1,
                                    nonce: Some(nonce),
                                    class: e0.class,
                                }),
                            ));
                        }
                    }
                    let ghost sd2 = state_diff;
                    let ghost e2 = contract_entry_or_empty(sd2.contracts(), cd.address);
                    if let Some(class_hash) = cd.class_hash {
                        if current_count == 0 {
                            proof {
                                lemma_fold_failed_monotone(count0, rs, k + 1, sd_fin_index(rs));
                            }
                            return Err(IncorrectStateDiffCount(peer));
                        }
                        current_count = current_count - 1;
                        state_diff.set_contract_class_deploy(cd.address, class_hash);
                        proof {
                            assert(e2 == (ContractUpdateModel {
                                storage: st1,
                                nonce: if cd.nonce is Some {
                                    cd.nonce
                                } else {
                                    e0.nonce
                                },
                                class: e0.class,
                            }));
                            assert(state_diff.contracts() =~= sd0.contracts().insert(
                                cd.address,
                                (ContractUpdateModel {
                                    storage: st1,
                                    nonce: e2.nonce,
                                    class: Some(ContractClassUpdate::Deploy(class_hash)),
                                }),
                            ));
                        }
                    }
                }
            },
            StateDiffsResponse::DeclaredClass(dc) => {
                if current_count == 0 {
                    proof {
                        lemma_fold_failed_monotone(count0, rs, k + 1, sd_fin_index(rs));
                    }
                    return Err(IncorrectStateDiffCount(peer));
                }
                current_count = current_count - 1;
                match dc.compiled_class_hash {
                    Some(casm) => {
                        state_diff.declare_sierra_class(SierraHash(dc.class_hash.0), casm);
                    },
                    None => {
                        state_diff.declare_cairo_class(dc.class_hash);
                    },
                }
            },
        }
        k = k + 1;
    }
    proof {
        lemma_sd_fin_index(rs);
        assert(sd_fin_index(rs) == rs.len());
    }
    Ok(None)
}

} // verus!
