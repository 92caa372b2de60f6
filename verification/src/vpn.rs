//! The messages of the app's `startVpn` call to its Android VPN plugin,
//! which carries the VPN configuration as one text.
use vstd::prelude::*;

verus! {

/// The arguments of the plugin's `startVpn`.
pub struct StartVpnArgs {
    pub config: String,
}

/// The reply of the plugin's `startVpn`.
pub struct StartVpnResponse {
    pub success: bool,
}

} // verus!
