//! CloudTun: a lightweight cloud-hosted network proxy.
//!
//! This crate holds the verified core of the system: the XOR stream cipher
//! applied to proxied traffic, the hexadecimal and decimal encodings that the
//! client and server exchange in headers, the route-rule trie and its rule
//! file parser, the TC3 signature of Tencent Cloud API requests, and the
//! decisions the proxy server makes on incoming connections.
use vstd::prelude::*;

pub mod android;
pub mod args;
pub mod constant;
pub mod dns;
pub mod dns_message;
pub mod encode;
pub mod util;
pub mod vpn;
pub mod route;
pub mod rules;
pub mod tencent;
pub mod server;
pub mod server_fc;
pub mod proxy;
pub mod ping;
pub mod relay;
pub mod notify;
pub mod vpn_session;

verus! {

} // verus!
