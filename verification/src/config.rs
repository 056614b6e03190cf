//! Process configuration: credentials, simulation flag and optional proxy.
//!
//! Loading from the environment is input and output and stays outside the
//! library; the values live here, immutable for the process lifetime.

use vstd::prelude::*;

verus! {

/// The configuration the strategy runs under.
pub struct AppConfig {
    pub okx_api_key: String,
    pub okx_secret_key: String,
    pub okx_passphrase: String,
    pub simulation_mode: bool,
    pub proxy_url: Option<String>,
}

} // verus!
