//! Trade-domain data carried over the private channel, as plain values.

use vstd::prelude::*;

verus! {

/// One order as the exchange reports it.
pub struct Order {
    pub inst_id: String,
    pub ord_id: String,
    pub client_oid: String,
    pub px: String,
    pub sz: String,
    pub side: String,
    pub state: String,
    pub create_time: String,
}

/// One currency's balance as the exchange reports it.
pub struct Balance {
    pub currency: String,
    pub cash_balance: String,
}

} // verus!
