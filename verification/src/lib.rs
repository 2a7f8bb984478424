//! Replay engine that quantifies the economic loss caused by
//! transaction-ordering policy in a blockchain-style execution
//! environment.
//!
//! Swap transactions are grouped into slots, ordered so that bundled
//! transactions run ahead of the wider mempool, and replayed against a
//! constant-product market model; the gap between the outcome a trader
//! would have seen executing first and the outcome actually realized is
//! aggregated as the run's regret metric.

pub mod engine;
pub mod ingestor;
pub mod market_math;
pub mod ordering;
pub mod queue;
pub mod types;
