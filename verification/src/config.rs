//! The bot's settings, as read from its configuration file.
use vstd::prelude::*;

verus! {

/// The bot's settings.
pub struct Config {
    pub server: String,
    pub port: u16,
    pub use_ssl: bool,
    pub nickname: String,
    pub realname: Option<String>,
    pub channels: Vec<String>,
    pub sasl_username: Option<String>,
    pub sasl_password: Option<String>,
    pub capabilities: Option<Vec<String>>,
    pub reconnect_delay: u64,
    pub reconnect_attempts: u64,
    pub use_proxy: bool,
    pub proxy_addr: Option<String>,
    pub proxy_port: Option<u16>,
    pub proxy_username: Option<String>,
    pub proxy_password: Option<String>,
    pub ascii_art: Option<String>,
    pub pump_delay: u64,
}

/// The view of an optional string, or `default` when there is none.
pub open spec fn view_or(o: Option<String>, default: Seq<char>) -> Seq<char> {
    match o {
        Some(s) => s@,
        None => default,
    }
}

} // verus!
