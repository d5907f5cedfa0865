//! Stake-weighted allowlist of validator endpoints: normalisation of peer
//! records, stake aggregation, classification of endpoints and /24 subnet
//! aggregation, each with a verified contract.

pub mod gossip_spy;
pub mod subnet;
pub mod ranking_table;
pub mod rpc_request;
pub mod http_endpoint;
