use p2p_sync::ids::{
    CasmHash, ClassHash, ContractAddress, ContractNonce, Felt, PeerId, SierraHash,
    StateDiffCommitment, StorageAddress, StorageValue,
};
use p2p_sync::proto::{ContractDiff, ContractStoredValue, DeclaredClass, StateDiffsResponse};
use p2p_sync::state_diff_stream::StateDiffStreamMachine;
use p2p_sync::state_update::{ContractClassUpdate, ContractUpdate, SystemContractUpdate};
use p2p_sync::types::{AttemptOutcome, ExpectationQueue, IncorrectStateDiffCount};

fn felt(n: u64) -> Felt {
    Felt { hi: 0, lo: n as u128 }
}

fn addr(n: u64) -> ContractAddress {
    ContractAddress(felt(n))
}

fn kv(k: u64, v: u64) -> ContractStoredValue {
    ContractStoredValue { key: StorageAddress(felt(k)), value: StorageValue(felt(v)) }
}

fn peer(n: u64) -> PeerId {
    PeerId { id: n }
}

fn contract_diff(
    a: ContractAddress,
    nonce: Option<u64>,
    class_hash: Option<u64>,
    values: Vec<ContractStoredValue>,
) -> StateDiffsResponse {
    StateDiffsResponse::ContractDiff(ContractDiff {
        address: a,
        nonce: nonce.map(|n| ContractNonce(felt(n))),
        class_hash: class_hash.map(|h| ClassHash(felt(h))),
        values,
    })
}

#[test]
fn state_diff_mixed_items_single_block() {
    // One block whose diff totals five items: two storage writes plus a
    // nonce under one contract, one declared Cairo-zero class, and one
    // system-contract storage write.
    let commitment = StateDiffCommitment(felt(777));
    let mut m = StateDiffStreamMachine::new(100, 100, (5, commitment));
    let mut exps = ExpectationQueue::new(vec![]);
    let p = peer(1);
    let responses = vec![
        contract_diff(addr(10), Some(5), None, vec![kv(1, 11), kv(2, 22)]),
        StateDiffsResponse::DeclaredClass(DeclaredClass {
            class_hash: ClassHash(felt(33)),
            compiled_class_hash: None,
        }),
        contract_diff(addr(1), None, None, vec![kv(3, 33)]),
        StateDiffsResponse::Fin,
    ];
    let (yields, outcome) = m.run_attempt(p, responses, &mut exps);
    assert_eq!(outcome, AttemptOutcome::Completed);
    assert_eq!(yields.len(), 1);
    let y = &yields[0];
    assert_eq!(y.peer, p);
    assert_eq!(y.data.1, 100);
    assert_eq!(y.data.0.expected_commitment, commitment);
    let sd = &y.data.0.state_diff;
    assert_eq!(
        sd.contract_updates,
        vec![(
            addr(10),
            ContractUpdate {
                storage: vec![
                    (StorageAddress(felt(1)), StorageValue(felt(11))),
                    (StorageAddress(felt(2)), StorageValue(felt(22))),
                ],
                nonce: Some(ContractNonce(felt(5))),
                class: None,
            }
        )]
    );
    assert_eq!(
        sd.system_contract_updates,
        vec![(
            addr(1),
            SystemContractUpdate {
                storage: vec![(StorageAddress(felt(3)), StorageValue(felt(33)))],
            }
        )]
    );
    assert_eq!(sd.declared_cairo_classes, vec![ClassHash(felt(33))]);
    assert!(sd.declared_sierra_classes.is_empty());
}

#[test]
fn state_diff_over_delivery_on_non_last_block_rotates() {
    // Block 10 expects one item but the peer sends two storage writes in one
    // diff: the peer is dropped, the next peer re-serves block 10 cleanly
    // and the stream proceeds to block 11.
    let c10 = StateDiffCommitment(felt(10));
    let c11 = StateDiffCommitment(felt(11));
    let mut m = StateDiffStreamMachine::new(10, 11, (1, c10));
    let mut exps = ExpectationQueue::new(vec![(1, c11)]);
    let (y1, o1) = m.run_attempt(
        peer(1),
        vec![contract_diff(addr(7), None, None, vec![kv(1, 1), kv(2, 2)])],
        &mut exps,
    );
    assert_eq!(o1, AttemptOutcome::RotatePeer);
    assert!(y1.is_empty());
    let (y2, o2) = m.run_attempt(
        peer(2),
        vec![
            contract_diff(addr(7), None, None, vec![kv(1, 1)]),
            contract_diff(addr(8), None, None, vec![kv(2, 2)]),
            StateDiffsResponse::Fin,
        ],
        &mut exps,
    );
    assert_eq!(o2, AttemptOutcome::Completed);
    assert_eq!(y2.len(), 2);
    assert_eq!(y2[0].data.1, 10);
    assert_eq!(y2[0].peer, peer(2));
    assert_eq!(y2[0].data.0.expected_commitment, c10);
    assert_eq!(y2[1].data.1, 11);
    assert_eq!(y2[1].data.0.expected_commitment, c11);
}

#[test]
fn state_diff_deploy_recorded_for_downstream() {
    // A class hash in a contract diff is recorded as a deployment; deciding
    // deploy versus replace is the consumer's job.
    let c = StateDiffCommitment(felt(1));
    let mut m = StateDiffStreamMachine::new(3, 3, (1, c));
    let mut exps = ExpectationQueue::new(vec![]);
    let (yields, outcome) = m.run_attempt(
        peer(1),
        vec![contract_diff(addr(9), None, Some(44), vec![]), StateDiffsResponse::Fin],
        &mut exps,
    );
    assert_eq!(outcome, AttemptOutcome::Completed);
    assert_eq!(yields.len(), 1);
    let sd = &yields[0].data.0.state_diff;
    assert_eq!(sd.contract_updates.len(), 1);
    assert_eq!(
        sd.contract_updates[0].1.class,
        Some(ContractClassUpdate::Deploy(ClassHash(felt(44))))
    );
}

#[test]
fn state_diff_early_fin_rotates() {
    let c = StateDiffCommitment(felt(1));
    let mut m = StateDiffStreamMachine::new(3, 3, (2, c));
    let mut exps = ExpectationQueue::new(vec![]);
    let (yields, outcome) = m.run_attempt(
        peer(1),
        vec![contract_diff(addr(9), None, None, vec![kv(1, 1)]), StateDiffsResponse::Fin],
        &mut exps,
    );
    assert_eq!(outcome, AttemptOutcome::RotatePeer);
    assert!(yields.is_empty());
}

#[test]
fn state_diff_zero_count_block_yields_empty_update_on_fin() {
    // Block 5 expects no items at all: the peer's Fin completes it, an empty
    // update is emitted and the walk moves on to block 6.
    let c5 = StateDiffCommitment(felt(5));
    let c6 = StateDiffCommitment(felt(6));
    let mut m = StateDiffStreamMachine::new(5, 6, (0, c5));
    let mut exps = ExpectationQueue::new(vec![(1, c6)]);
    let (y1, o1) = m.run_attempt(peer(1), vec![StateDiffsResponse::Fin], &mut exps);
    assert_eq!(o1, AttemptOutcome::RotatePeer);
    assert_eq!(y1.len(), 1);
    assert_eq!(y1[0].data.1, 5);
    assert_eq!(y1[0].data.0.expected_commitment, c5);
    assert!(y1[0].data.0.state_diff.contract_updates.is_empty());
    let (y2, o2) = m.run_attempt(
        peer(2),
        vec![contract_diff(addr(4), None, None, vec![kv(1, 1)]), StateDiffsResponse::Fin],
        &mut exps,
    );
    assert_eq!(o2, AttemptOutcome::Completed);
    assert_eq!(y2.len(), 1);
    assert_eq!(y2[0].data.1, 6);
}

#[test]
fn state_diff_for_block_assembles_and_checks_count() {
    let p = peer(5);
    let responses = vec![
        contract_diff(addr(10), Some(5), None, vec![kv(1, 11), kv(2, 22)]),
        StateDiffsResponse::DeclaredClass(DeclaredClass {
            class_hash: ClassHash(felt(33)),
            compiled_class_hash: Some(CasmHash(felt(34))),
        }),
        StateDiffsResponse::Fin,
    ];
    let r = p2p_sync::block_client::state_diff_for_block(p, 4, &responses);
    let sd = r.expect("count matches").expect("fin arrived").1;
    assert_eq!(sd.contract_updates.len(), 1);
    assert_eq!(sd.contract_updates[0].0, addr(10));
    assert_eq!(
        sd.declared_sierra_classes,
        vec![(SierraHash(felt(33)), CasmHash(felt(34)))]
    );

    // One item short: the same responses against a larger expectation.
    let r = p2p_sync::block_client::state_diff_for_block(p, 5, &responses);
    assert_eq!(r, Err(IncorrectStateDiffCount(p)));

    // Over-delivery: a smaller expectation.
    let r = p2p_sync::block_client::state_diff_for_block(p, 3, &responses);
    assert_eq!(r, Err(IncorrectStateDiffCount(p)));

    // No Fin: no decision, ask the next peer.
    let r = p2p_sync::block_client::state_diff_for_block(
        p,
        4,
        &vec![contract_diff(addr(10), Some(5), None, vec![kv(1, 11), kv(2, 22)])],
    );
    assert_eq!(r, Ok(None));
}

#[test]
fn state_diff_storage_later_write_wins() {
    // Two writes to the same storage key within one block: the later wins.
    let p = peer(5);
    let responses = vec![
        contract_diff(addr(10), None, None, vec![kv(1, 11), kv(1, 12)]),
        StateDiffsResponse::Fin,
    ];
    let r = p2p_sync::block_client::state_diff_for_block(p, 2, &responses);
    let sd = r.unwrap().unwrap().1;
    assert_eq!(
        sd.contract_updates[0].1.storage,
        vec![(StorageAddress(felt(1)), StorageValue(felt(12)))]
    );
}
