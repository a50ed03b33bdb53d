//! Route table of the JSON-RPC API, version 0.8.
//!
//! The router maps each method name of the API surface to its handler. The
//! handlers themselves live with the node's storage and execution layers;
//! here each is an identifier, so the table — which names exist in this
//! version and what each dispatches to — is itself checked.

use vstd::prelude::*;

verus! {

/// The API version a router is built for.
#[derive(Clone, Copy, Debug, PartialEq, Eq, Structural)]
pub enum RpcVersion {
    V08,
}

/// The handler a method name dispatches to.
#[derive(Clone, Copy, Debug, PartialEq, Eq, Structural)]
pub enum RpcHandler {
    BlockHashAndNumber,
    BlockNumber,
    ChainId,
    GetBlockTransactionCount,
    GetBlockWithTxHashes,
    GetBlockWithTxs,
    GetClass,
    GetClassAt,
    GetClassHashAt,
    GetEvents,
    GetNonce,
    GetStateUpdate,
    GetStorageAt,
    GetTransactionByBlockIdAndIndex,
    GetTransactionByHash,
    GetTransactionStatus,
    SubscribeNewHeads,
    SubscribePendingTransactions,
    SubscribeEvents,
    SpecVersion,
    Syncing,
    GetProof,
}

/// A router under construction: the version and the routes registered so
/// far, in registration order.
pub struct RpcRouterBuilder {
    pub version: RpcVersion,
    pub routes: Vec<(&'static str, RpcHandler)>,
}

impl RpcRouterBuilder {
    pub fn new(version: RpcVersion) -> (r: RpcRouterBuilder)
        ensures
            r.version == version,
            r.routes@.len() == 0,
    {
        RpcRouterBuilder { version, routes: Vec::new() }
    }

    pub fn register(self, method: &'static str, handler: RpcHandler) -> (r: RpcRouterBuilder)
        ensures
            r.version == self.version,
            r.routes@ == self.routes@.push((method, handler)),
    {
        let mut routes = self.routes;
        routes.push((method, handler));
        RpcRouterBuilder { version: self.version, routes }
    }
}

/// Registers every method of the version 0.8 API surface, each under its
/// `starknet_` name, together with the node's proof endpoint.
pub fn register_routes() -> (r: RpcRouterBuilder)
    ensures
        r.version == RpcVersion::V08,
        r.routes@.len() == 22,
        r.routes@[0] == ("starknet_blockHashAndNumber", RpcHandler::BlockHashAndNumber),
        r.routes@[1] == ("starknet_blockNumber", RpcHandler::BlockNumber),
        r.routes@[2] == ("starknet_chainId", RpcHandler::ChainId),
        r.routes@[3] == ("starknet_getBlockTransactionCount", RpcHandler::GetBlockTransactionCount),
        r.routes@[4] == ("starknet_getBlockWithTxHashes", RpcHandler::GetBlockWithTxHashes),
        r.routes@[5] == ("starknet_getBlockWithTxs", RpcHandler::GetBlockWithTxs),
        r.routes@[6] == ("starknet_getClass", RpcHandler::GetClass),
        r.routes@[7] == ("starknet_getClassAt", RpcHandler::GetClassAt),
        r.routes@[8] == ("starknet_getClassHashAt", RpcHandler::GetClassHashAt),
        r.routes@[9] == ("starknet_getEvents", RpcHandler::GetEvents),
        r.routes@[10] == ("starknet_getNonce", RpcHandler::GetNonce),
        r.routes@[11] == ("starknet_getStateUpdate", RpcHandler::GetStateUpdate),
        r.routes@[12] == ("starknet_getStorageAt", RpcHandler::GetStorageAt),
        r.routes@[13] == (
            "starknet_getTransactionByBlockIdAndIndex",
            RpcHandler::GetTransactionByBlockIdAndIndex,
        ),
        r.routes@[14] == ("starknet_getTransactionByHash", RpcHandler::GetTransactionByHash),
        r.routes@[15] == ("starknet_getTransactionStatus", RpcHandler::GetTransactionStatus),
        r.routes@[16] == ("starknet_subscribeNewHeads", RpcHandler::SubscribeNewHeads),
        r.routes@[17] == (
            "starknet_subscribePendingTransactions",
            RpcHandler::SubscribePendingTransactions,
        ),
        r.routes@[18] == ("starknet_subscribeEvents", RpcHandler::SubscribeEvents),
        r.routes@[19] == ("starknet_specVersion", RpcHandler::SpecVersion),
        r.routes@[20] == ("starknet_syncing", RpcHandler::Syncing),
        r.routes@[21] == ("pathfinder_getProof", RpcHandler::GetProof),
{
    RpcRouterBuilder::new(RpcVersion::V08)
        .register("starknet_blockHashAndNumber", RpcHandler::BlockHashAndNumber)
        .register("starknet_blockNumber", RpcHandler::BlockNumber)
        .register("starknet_chainId", RpcHandler::ChainId)
        .register("starknet_getBlockTransactionCount", RpcHandler::GetBlockTransactionCount)
        .register("starknet_getBlockWithTxHashes", RpcHandler::GetBlockWithTxHashes)
        .register("starknet_getBlockWithTxs", RpcHandler::GetBlockWithTxs)
        .register("starknet_getClass", RpcHandler::GetClass)
        .register("starknet_getClassAt", RpcHandler::GetClassAt)
        .register("starknet_getClassHashAt", RpcHandler::GetClassHashAt)
        .register("starknet_getEvents", RpcHandler::GetEvents)
        .register("starknet_getNonce", RpcHandler::GetNonce)
        .register("starknet_getStateUpdate", RpcHandler::GetStateUpdate)
        .register("starknet_getStorageAt", RpcHandler::GetStorageAt)
        .register(
            "starknet_getTransactionByBlockIdAndIndex",
            RpcHandler::GetTransactionByBlockIdAndIndex,
        )
        .register("starknet_getTransactionByHash", RpcHandler::GetTransactionByHash)
        .register("starknet_getTransactionStatus", RpcHandler::GetTransactionStatus)
        .register("starknet_subscribeNewHeads", RpcHandler::SubscribeNewHeads)
        .register("starknet_subscribePendingTransactions", RpcHandler::SubscribePendingTransactions)
        .register("starknet_subscribeEvents", RpcHandler::SubscribeEvents)
        .register("starknet_specVersion", RpcHandler::SpecVersion)
        .register("starknet_syncing", RpcHandler::Syncing)
        .register("pathfinder_getProof", RpcHandler::GetProof)
}

} // verus!
