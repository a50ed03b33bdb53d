use p2p_sync::header_stream::{HeaderStreamAction, HeaderStreamMachine};
use p2p_sync::ids::{
    Felt, PeerId, Receipt, ReceiptBody, SignedBlockHeader, TransactionCommitment,
    TransactionVariant,
};
use p2p_sync::proto::{BlockHeadersResponse, Decoded, Direction, TransactionsResponse};
use p2p_sync::transaction_stream::TransactionStreamMachine;
use p2p_sync::types::{AttemptOutcome, ExpectationQueue};

fn felt(n: u64) -> Felt {
    Felt { hi: 0, lo: n as u128 }
}

fn peer(n: u64) -> PeerId {
    PeerId { id: n }
}

fn header(n: u64) -> BlockHeadersResponse {
    BlockHeadersResponse::Header(Decoded::Valid(SignedBlockHeader { raw: n }))
}

fn txn(n: u64) -> TransactionsResponse {
    TransactionsResponse::TransactionWithReceipt(Decoded::Valid((
        TransactionVariant { raw: n },
        ReceiptBody { raw: 100 + n },
    )))
}

#[test]
fn header_forward_happy_path() {
    // A cooperative peer serves headers for blocks 10, 11, 12 and Fin.
    let mut m = HeaderStreamMachine::new(10, 12, false);
    let p = peer(1);
    let responses = vec![header(10), header(11), header(12), BlockHeadersResponse::Fin];
    let (yields, done) = m.run_attempt(p, &responses);
    assert!(done);
    assert_eq!(yields.len(), 3);
    for (i, y) in yields.iter().enumerate() {
        assert_eq!(y.peer, p);
        assert_eq!(y.data, SignedBlockHeader { raw: 10 + i as u64 });
    }
}

#[test]
fn header_rollover_across_peers() {
    // The first peer serves one header and fails; the second finishes.
    let mut m = HeaderStreamMachine::new(5, 6, false);
    let p1 = peer(1);
    let p2 = peer(2);
    let (y1, done1) = m.run_attempt(p1, &vec![header(5)]);
    assert!(!done1);
    assert_eq!(y1.len(), 1);
    assert_eq!(y1[0].peer, p1);
    assert_eq!(y1[0].data, SignedBlockHeader { raw: 5 });
    let (y2, done2) = m.run_attempt(p2, &vec![header(6), BlockHeadersResponse::Fin]);
    assert!(done2);
    assert_eq!(y2.len(), 1);
    assert_eq!(y2[0].peer, p2);
    assert_eq!(y2[0].data, SignedBlockHeader { raw: 6 });
}

#[test]
fn header_reverse_walks_down() {
    // Reversed range: blocks come from stop down to start.
    let mut m = HeaderStreamMachine::new(3, 5, true);
    assert_eq!(m.direction, Direction::Backward);
    let p = peer(7);
    let responses =
        vec![header(5), header(4), header(3), BlockHeadersResponse::Fin];
    let (yields, done) = m.run_attempt(p, &responses);
    assert!(done);
    let raws: Vec<u64> = yields.iter().map(|y| y.data.raw).collect();
    assert_eq!(raws, vec![5, 4, 3]);
}

#[test]
fn header_malformed_rotates_peer() {
    let mut m = HeaderStreamMachine::new(0, 1, false);
    let p = peer(1);
    let responses = vec![BlockHeadersResponse::Header(Decoded::Malformed)];
    let (yields, done) = m.run_attempt(p, &responses);
    assert!(!done);
    assert!(yields.is_empty());
}

#[test]
fn transaction_coverage_in_order() {
    // Blocks 10..=12 expect 2, 1 and 3 transactions; one cooperative peer
    // serves all of them and the stream completes in order.
    let c0 = TransactionCommitment(felt(90));
    let c1 = TransactionCommitment(felt(91));
    let c2 = TransactionCommitment(felt(92));
    let mut m = TransactionStreamMachine::new(10, 12, (2, c0));
    let mut exps = ExpectationQueue::new(vec![(1, c1), (3, c2)]);
    let p = peer(3);
    let responses = vec![
        txn(0),
        txn(1),
        txn(2),
        txn(3),
        txn(4),
        txn(5),
        TransactionsResponse::Fin,
    ];
    let (yields, outcome) = m.run_attempt(p, &responses, &mut exps);
    assert_eq!(outcome, AttemptOutcome::Completed);
    assert_eq!(yields.len(), 3);
    let blocks: Vec<u64> = yields.iter().map(|y| y.data.1).collect();
    assert_eq!(blocks, vec![10, 11, 12]);
    assert_eq!(yields[0].data.0.expected_commitment, c0);
    assert_eq!(yields[1].data.0.expected_commitment, c1);
    assert_eq!(yields[2].data.0.expected_commitment, c2);
    assert_eq!(yields[0].data.0.transactions.len(), 2);
    assert_eq!(yields[1].data.0.transactions.len(), 1);
    assert_eq!(yields[2].data.0.transactions.len(), 3);
    // Receipt indices restart at zero for each block, in arrival order.
    let idx2: Vec<u64> =
        yields[2].data.0.transactions.iter().map(|t| t.1.transaction_index).collect();
    assert_eq!(idx2, vec![0, 1, 2]);
    assert_eq!(
        yields[2].data.0.transactions[0],
        (TransactionVariant { raw: 3 }, Receipt { body: ReceiptBody { raw: 103 }, transaction_index: 0 })
    );
}

#[test]
fn transaction_no_partial_leakage() {
    // A peer dies mid-block: nothing of that block reaches the consumer.
    let c0 = TransactionCommitment(felt(9));
    let mut m = TransactionStreamMachine::new(4, 4, (3, c0));
    let mut exps = ExpectationQueue::new(vec![]);
    let (yields, outcome) = m.run_attempt(peer(1), &vec![txn(0), txn(1)], &mut exps);
    assert_eq!(outcome, AttemptOutcome::RotatePeer);
    assert!(yields.is_empty());
}

#[test]
fn transaction_rotation_idempotent() {
    // Peer rotation after a partial block: the artifact the second peer
    // produces equals the artifact it would have produced alone.
    let c0 = TransactionCommitment(felt(9));
    let mut exps_a = ExpectationQueue::new(vec![]);
    let mut m_a = TransactionStreamMachine::new(4, 4, (2, c0));
    let (_, o) = m_a.run_attempt(peer(1), &vec![txn(7)], &mut exps_a);
    assert_eq!(o, AttemptOutcome::RotatePeer);
    let (ys_a, _) =
        m_a.run_attempt(peer(2), &vec![txn(0), txn(1), TransactionsResponse::Fin], &mut exps_a);

    let mut exps_b = ExpectationQueue::new(vec![]);
    let mut m_b = TransactionStreamMachine::new(4, 4, (2, c0));
    let (ys_b, _) =
        m_b.run_attempt(peer(2), &vec![txn(0), txn(1), TransactionsResponse::Fin], &mut exps_b);
    assert_eq!(ys_a, ys_b);
}

#[test]
fn transaction_early_fin_rotates() {
    let c0 = TransactionCommitment(felt(9));
    let mut m = TransactionStreamMachine::new(4, 5, (2, c0));
    let mut exps = ExpectationQueue::new(vec![(1, c0)]);
    let (yields, outcome) =
        m.run_attempt(peer(1), &vec![txn(0), TransactionsResponse::Fin], &mut exps);
    assert_eq!(outcome, AttemptOutcome::RotatePeer);
    assert!(yields.is_empty());
}

#[test]
fn transaction_over_delivery_on_last_block_terminates() {
    let c0 = TransactionCommitment(felt(9));
    let mut m = TransactionStreamMachine::new(4, 4, (1, c0));
    let mut exps = ExpectationQueue::new(vec![]);
    let (yields, outcome) = m.run_attempt(peer(1), &vec![txn(0), txn(1)], &mut exps);
    assert_eq!(outcome, AttemptOutcome::Completed);
    assert_eq!(yields.len(), 1);
    assert_eq!(yields[0].data.1, 4);
}

#[test]
fn transaction_expectations_ending_terminates() {
    // The expectation sequence ends before the range: the stream terminates
    // after the blocks it could still describe.
    let c0 = TransactionCommitment(felt(9));
    let mut m = TransactionStreamMachine::new(4, 6, (1, c0));
    let mut exps = ExpectationQueue::new(vec![]);
    let (yields, outcome) = m.run_attempt(peer(1), &vec![txn(0), txn(1)], &mut exps);
    assert_eq!(outcome, AttemptOutcome::ExpectationsEnded);
    assert_eq!(yields.len(), 1);
}
