use p2p_sync::block_client::{events_for_block, transactions_for_block};
use p2p_sync::decaying::{Decaying, DEFAULT_TIMEOUT_MILLIS};
use p2p_sync::ids::{
    Event, Felt, PeerId, Receipt, ReceiptBody, TransactionHash, TransactionVariant,
};
use p2p_sync::peers::{cached_peers, install_refreshed};
use p2p_sync::progress::BlockProgress;
use p2p_sync::proto::{Decoded, EventItem, EventsResponse, TransactionsResponse};
use p2p_sync::rpc::{register_routes, RpcHandler, RpcVersion};

fn felt(n: u64) -> Felt {
    Felt { hi: 0, lo: n as u128 }
}

fn peer(n: u64) -> PeerId {
    PeerId { id: n }
}

#[test]
fn transactions_for_block_assigns_indices_until_fin() {
    let txn = |n: u64| {
        TransactionsResponse::TransactionWithReceipt(Decoded::Valid((
            TransactionVariant { raw: n },
            ReceiptBody { raw: 50 + n },
        )))
    };
    let responses = vec![txn(0), txn(1), TransactionsResponse::Fin, txn(2)];
    let r = transactions_for_block(&responses);
    assert_eq!(r.len(), 2);
    assert_eq!(
        r[0],
        Ok((
            TransactionVariant { raw: 0 },
            Receipt { body: ReceiptBody { raw: 50 }, transaction_index: 0 }
        ))
    );
    assert_eq!(
        r[1],
        Ok((
            TransactionVariant { raw: 1 },
            Receipt { body: ReceiptBody { raw: 51 }, transaction_index: 1 }
        ))
    );
}

#[test]
fn transactions_for_block_reports_malformed_in_place() {
    let responses = vec![
        TransactionsResponse::TransactionWithReceipt(Decoded::Malformed),
        TransactionsResponse::Fin,
    ];
    let r = transactions_for_block(&responses);
    assert_eq!(r.len(), 1);
    assert!(r[0].is_err());
}

#[test]
fn events_for_block_pairs_hashes_until_fin() {
    let responses = vec![
        EventsResponse::Event(EventItem {
            transaction_hash: TransactionHash(felt(1)),
            payload: Decoded::Valid(Event { raw: 10 }),
        }),
        EventsResponse::Event(EventItem {
            transaction_hash: TransactionHash(felt(2)),
            payload: Decoded::Valid(Event { raw: 20 }),
        }),
        EventsResponse::Fin,
    ];
    let r = events_for_block(&responses);
    assert_eq!(
        r,
        vec![
            (TransactionHash(felt(1)), Event { raw: 10 }),
            (TransactionHash(felt(2)), Event { raw: 20 }),
        ]
    );
}

#[test]
fn block_progress_rollback_restores_checkpoint() {
    let mut p = BlockProgress::new(3);
    assert_eq!(p.get(), 3);
    p.decrement();
    p.decrement();
    assert_eq!(p.get(), 1);
    p.rollback();
    assert_eq!(p.get(), 3);
}

#[test]
fn decaying_cache_freshness_window() {
    let cache = Decaying::new(7u64, 1000, 5000);
    assert_eq!(cache.get(5500), Some(&7));
    assert_eq!(cache.get(6000), Some(&7));
    assert_eq!(cache.get(6001), None);
    // A reading taken before the update counts as fresh.
    assert_eq!(cache.get(900), Some(&7));
}

#[test]
fn decaying_cache_update_restamps() {
    let mut cache = Decaying::new(7u64, 1000, 5000);
    assert_eq!(cache.get(7000), None);
    cache.update(8, 7000);
    assert_eq!(cache.get(7000), Some(&8));
    assert_eq!(cache.get(8000), Some(&8));
    assert_eq!(cache.get(8001), None);
}

#[test]
fn peer_cache_refresh_removes_self_and_keeps_elements() {
    let mut cache: Decaying<Vec<PeerId>> = Decaying::new(Vec::new(), DEFAULT_TIMEOUT_MILLIS, 0);
    assert_eq!(cached_peers(&cache, DEFAULT_TIMEOUT_MILLIS + 1), None);
    let closest = vec![peer(1), peer(2), peer(3), peer(9)];
    let shuffled = install_refreshed(&mut cache, closest, peer(9), DEFAULT_TIMEOUT_MILLIS + 1);
    assert_eq!(cache.data, vec![peer(1), peer(2), peer(3)]);
    let mut sorted: Vec<u64> = shuffled.iter().map(|p| p.id).collect();
    sorted.sort();
    assert_eq!(sorted, vec![1, 2, 3]);
    // A second caller inside the lifetime window sees the installed set and
    // fires no second refresh; its copy is shuffled independently.
    let again = cached_peers(&cache, DEFAULT_TIMEOUT_MILLIS + 500).expect("still fresh");
    let mut sorted_again: Vec<u64> = again.iter().map(|p| p.id).collect();
    sorted_again.sort();
    assert_eq!(sorted_again, vec![1, 2, 3]);
}

#[test]
fn register_routes_exposes_v08_surface() {
    let router = register_routes();
    assert_eq!(router.version, RpcVersion::V08);
    assert_eq!(router.routes.len(), 22);
    assert_eq!(
        router.routes[0],
        ("starknet_blockHashAndNumber", RpcHandler::BlockHashAndNumber)
    );
    assert_eq!(router.routes[2], ("starknet_chainId", RpcHandler::ChainId));
    assert_eq!(router.routes[19], ("starknet_specVersion", RpcHandler::SpecVersion));
    assert_eq!(router.routes[21], ("pathfinder_getProof", RpcHandler::GetProof));
    let names: Vec<&str> = router.routes.iter().map(|r| r.0).collect();
    assert!(names.contains(&"starknet_getStorageAt"));
    assert!(names.contains(&"starknet_subscribeEvents"));
}
