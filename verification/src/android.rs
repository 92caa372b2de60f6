//! The messages exchanged with the Android VPN plugin, and how the app
//! answers when a plugin call fails.
use vstd::prelude::*;
use vstd::string::StringExecFns;

verus! {

/// The arguments of the plugin's `startVpn`.
pub struct StartVpnArgs {
    pub server_ip: String,
    pub token: String,
    pub cvm_id: String,
    pub proxy_apps: String,
}

/// The reply of the plugin's `startVpn`.
pub struct StartVpnResponse {
    pub success: bool,
}

/// The reply of the plugin's `getVpnConnected`.
pub struct CheckVpnConnectedResponse {
    pub connected: bool,
}

/// An installed app, as the plugin's `listAllApps` describes it.
pub struct ListAllAppsResponseItem {
    pub name: String,
    pub icon: String,
    pub id: String,
}

/// The reply of the plugin's `listAllApps`.
pub struct ListAllAppsResponse {
    pub apps: Vec<ListAllAppsResponseItem>,
}

/// The log line written when the plugin method `method` fails with `error`.
pub open spec fn plugin_failure_log(method: Seq<char>, error: Seq<char>) -> Seq<char> {
    "failed "@ + method + " due to: "@ + error
}

/// The answer to a plugin call: its reply's value, or, when the call failed,
/// `fallback` together with the line to log.
pub fn plugin_outcome<T>(ret: Result<T, String>, method: &str, fallback: T) -> (r: (T, Option<String>))
    ensures
        match ret {
            Ok(v) => r.0 == v && r.1 is None,
            Err(e) => r.0 == fallback && (r.1 matches Some(l) && l@ == plugin_failure_log(method@, e@)),
        },
{
    match ret {
        Ok(v) => (v, None),
        Err(e) => {
            let mut line = String::from_str("failed ");
            line.append(method);
            line.append(" due to: ");
            line.append(e.as_str());
            (fallback, Some(line))
        },
    }
}

} // verus!
