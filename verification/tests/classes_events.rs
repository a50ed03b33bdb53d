use p2p_sync::class_stream::ClassStreamMachine;
use p2p_sync::event_stream::EventStreamMachine;
use p2p_sync::ids::{Event, Felt, PeerId, TransactionHash};
use p2p_sync::proto::{ClassesResponse, Decoded, EventItem, EventsResponse};
use p2p_sync::types::{AttemptOutcome, ClassDefinition, ClassDefinitionsError, CountQueue};

fn felt(n: u64) -> Felt {
    Felt { hi: 0, lo: n as u128 }
}

fn peer(n: u64) -> PeerId {
    PeerId { id: n }
}

fn event(tx: u64, raw: u64) -> EventsResponse {
    EventsResponse::Event(EventItem {
        transaction_hash: TransactionHash(felt(tx)),
        payload: Decoded::Valid(Event { raw }),
    })
}

#[test]
fn event_grouping_by_consecutive_transaction() {
    // Events from transactions A, A, B, A group into three entries: the
    // grouping is by consecutive hash, not by a global set.
    let mut m = EventStreamMachine::new(0, 0, 4);
    let mut counts = CountQueue::new(vec![]);
    let p = peer(1);
    let responses = vec![event(10, 1), event(10, 2), event(20, 3), event(10, 4)];
    let (yields, outcome) = m.run_attempt(p, responses, &mut counts);
    assert_eq!(outcome, AttemptOutcome::Completed);
    assert_eq!(yields.len(), 1);
    assert_eq!(yields[0].peer, p);
    let (block, groups) = &yields[0].data;
    assert_eq!(*block, 0);
    assert_eq!(
        *groups,
        vec![
            (TransactionHash(felt(10)), vec![Event { raw: 1 }, Event { raw: 2 }]),
            (TransactionHash(felt(20)), vec![Event { raw: 3 }]),
            (TransactionHash(felt(10)), vec![Event { raw: 4 }]),
        ]
    );
}

#[test]
fn event_rollover_discards_partial_block() {
    // Peer one dies mid-block; peer two re-serves the block from scratch and
    // the artifact shows no trace of the failed attempt.
    let mut m = EventStreamMachine::new(7, 7, 2);
    let mut counts = CountQueue::new(vec![]);
    let (y1, o1) = m.run_attempt(peer(1), vec![event(10, 99)], &mut counts);
    assert_eq!(o1, AttemptOutcome::RotatePeer);
    assert!(y1.is_empty());
    let (y2, o2) = m.run_attempt(peer(2), vec![event(11, 1), event(11, 2)], &mut counts);
    assert_eq!(o2, AttemptOutcome::Completed);
    assert_eq!(y2.len(), 1);
    assert_eq!(
        y2[0].data.1,
        vec![(TransactionHash(felt(11)), vec![Event { raw: 1 }, Event { raw: 2 }])]
    );
}

#[test]
fn event_zero_count_block_yields_empty_artifact() {
    // Blocks 3..=4: block 3 expects one event, block 4 none; block 4 is
    // still announced, with no groups.
    let mut m = EventStreamMachine::new(3, 4, 1);
    let mut counts = CountQueue::new(vec![0]);
    let (yields, outcome) = m.run_attempt(peer(1), vec![event(5, 1)], &mut counts);
    assert_eq!(outcome, AttemptOutcome::Completed);
    assert_eq!(yields.len(), 2);
    assert_eq!(yields[0].data.0, 3);
    assert_eq!(yields[1].data.0, 4);
    assert!(yields[1].data.1.is_empty());
}

#[test]
fn event_early_fin_rotates() {
    let mut m = EventStreamMachine::new(3, 3, 2);
    let mut counts = CountQueue::new(vec![]);
    let (yields, outcome) =
        m.run_attempt(peer(1), vec![event(5, 1), EventsResponse::Fin], &mut counts);
    assert_eq!(outcome, AttemptOutcome::RotatePeer);
    assert!(yields.is_empty());
}

#[test]
fn class_stream_flushes_complete_blocks() {
    // Block 5 declares two classes, block 6 none: two artifacts come out,
    // both for block 5, and the stream completes.
    let mut m = ClassStreamMachine::new(5, 6, 2);
    let mut counts = CountQueue::new(vec![0]);
    let p = peer(4);
    let responses = vec![
        ClassesResponse::Cairo0Class(Decoded::Valid(vec![1, 2, 3])),
        ClassesResponse::Cairo1Class(Decoded::Valid(vec![4, 5])),
    ];
    let (yields, outcome) = m.run_attempt(p, responses, &mut counts);
    assert_eq!(outcome, AttemptOutcome::Completed);
    assert_eq!(yields.len(), 2);
    assert_eq!(
        yields[0].data,
        ClassDefinition::Cairo { block_number: 5, definition: vec![1, 2, 3] }
    );
    assert_eq!(
        yields[1].data,
        ClassDefinition::Sierra { block_number: 5, sierra_definition: vec![4, 5] }
    );
}

#[test]
fn class_stream_discards_partial_block_on_failure() {
    let mut m = ClassStreamMachine::new(5, 5, 2);
    let mut counts = CountQueue::new(vec![]);
    let (y1, o1) = m.run_attempt(
        peer(1),
        vec![ClassesResponse::Cairo0Class(Decoded::Valid(vec![1]))],
        &mut counts,
    );
    assert_eq!(o1, AttemptOutcome::RotatePeer);
    assert!(y1.is_empty());
    let (y2, o2) = m.run_attempt(
        peer(2),
        vec![
            ClassesResponse::Cairo0Class(Decoded::Valid(vec![9])),
            ClassesResponse::Cairo0Class(Decoded::Valid(vec![8])),
        ],
        &mut counts,
    );
    assert_eq!(o2, AttemptOutcome::Completed);
    assert_eq!(y2.len(), 2);
    assert_eq!(
        y2[0].data,
        ClassDefinition::Cairo { block_number: 5, definition: vec![9] }
    );
}

#[test]
fn class_stream_malformed_rotates() {
    let mut m = ClassStreamMachine::new(5, 5, 1);
    let mut counts = CountQueue::new(vec![]);
    let (yields, outcome) = m.run_attempt(
        peer(1),
        vec![ClassesResponse::Cairo0Class(Decoded::Malformed)],
        &mut counts,
    );
    assert_eq!(outcome, AttemptOutcome::RotatePeer);
    assert!(yields.is_empty());
}

#[test]
fn class_definitions_for_block_exact_count() {
    let p = peer(6);
    let responses = vec![
        ClassesResponse::Cairo0Class(Decoded::Valid(vec![1])),
        ClassesResponse::Cairo1Class(Decoded::Valid(vec![2])),
        ClassesResponse::Fin,
    ];
    let r = p2p_sync::block_client::class_definitions_for_block(p, 9, 2, responses);
    let (rp, defs) = r.expect("count matches");
    assert_eq!(rp, p);
    assert_eq!(
        defs,
        vec![
            ClassDefinition::Cairo { block_number: 9, definition: vec![1] },
            ClassDefinition::Sierra { block_number: 9, sierra_definition: vec![2] },
        ]
    );
}

#[test]
fn class_definitions_for_block_count_mismatch() {
    let p = peer(6);
    let too_few = vec![
        ClassesResponse::Cairo0Class(Decoded::Valid(vec![1])),
        ClassesResponse::Fin,
    ];
    let r = p2p_sync::block_client::class_definitions_for_block(p, 9, 2, too_few);
    assert_eq!(r, Err(ClassDefinitionsError::IncorrectClassDefinitionCount(p)));

    let too_many = vec![
        ClassesResponse::Cairo0Class(Decoded::Valid(vec![1])),
        ClassesResponse::Cairo0Class(Decoded::Valid(vec![2])),
        ClassesResponse::Fin,
    ];
    let r = p2p_sync::block_client::class_definitions_for_block(p, 9, 1, too_many);
    assert_eq!(r, Err(ClassDefinitionsError::IncorrectClassDefinitionCount(p)));
}

#[test]
fn class_definitions_for_block_parse_errors() {
    let p = peer(6);
    let bad_cairo = vec![ClassesResponse::Cairo0Class(Decoded::Malformed)];
    let r = p2p_sync::block_client::class_definitions_for_block(p, 9, 1, bad_cairo);
    assert_eq!(r, Err(ClassDefinitionsError::CairoDefinitionError(p)));

    let bad_sierra = vec![ClassesResponse::Cairo1Class(Decoded::Malformed)];
    let r = p2p_sync::block_client::class_definitions_for_block(p, 9, 1, bad_sierra);
    assert_eq!(r, Err(ClassDefinitionsError::SierraDefinitionError(p)));
}
