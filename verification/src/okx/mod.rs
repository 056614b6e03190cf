pub mod auth;
pub mod client;
pub mod market_data;
pub mod protocol;
pub mod trade_data;
