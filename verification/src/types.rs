//! The record and event types that flow through the pipeline: the
//! validated input row handed over by the record source, and the owned
//! trade event that crosses the producer/consumer boundary.

use vstd::prelude::*;

verus! {

/// One validated input row of the swap log. `amount_out` and
/// `token_mint_out` are carried but not consumed by the engine: regret is
/// computed from re-simulated execution, not from the logged outcome.
pub struct RawTradeRecord {
    pub slot: u64,
    pub timestamp: u64,
    pub amount_in: u64,
    pub amount_out: u64,
    pub tx_signature: String,
    pub token_mint_in: String,
    pub token_mint_out: String,
    pub is_bundled: bool,
    pub tx_index: u16,
}

/// A trade event, immutable once constructed. It is owned by whichever
/// component currently holds it and is moved, never shared, across the
/// pipeline boundary.
pub struct InternalTrade {
    pub slot: u64,
    pub amount_in: u64,
    pub is_bundled: bool,
    pub tx_index: u16,
    pub tx_signature: String,
    pub token_mint_in: String,
}

impl From<RawTradeRecord> for InternalTrade {
    /// Keep the fields the engine consumes; drop the logged outcome.
    fn from(raw: RawTradeRecord) -> (t: Self) {
        InternalTrade {
            slot: raw.slot,
            amount_in: raw.amount_in,
            is_bundled: raw.is_bundled,
            tx_index: raw.tx_index,
            tx_signature: raw.tx_signature,
            token_mint_in: raw.token_mint_in,
        }
    }
}

impl vstd::std_specs::convert::FromSpecImpl<RawTradeRecord> for InternalTrade {
    open spec fn obeys_from_spec() -> bool {
        true
    }

    open spec fn from_spec(raw: RawTradeRecord) -> Self {
        InternalTrade {
            slot: raw.slot,
            amount_in: raw.amount_in,
            is_bundled: raw.is_bundled,
            tx_index: raw.tx_index,
            tx_signature: raw.tx_signature,
            token_mint_in: raw.token_mint_in,
        }
    }
}

} // verus!
