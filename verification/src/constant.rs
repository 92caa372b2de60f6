//! Names and ports shared by the proxy client and server.
use vstd::prelude::*;

verus! {

/// The header that carries the client's authentication token.
pub const X_TOKEN_KEY: &'static str = "x-token";

/// The header that names the host a tunnel connects to.
pub const X_CONNECT_HOST_KEY: &'static str = "x-connect-host";

/// The header that names the port a tunnel connects to.
pub const X_CONNECT_PORT_KEY: &'static str = "x-connect-port";

/// The header that carries the hexadecimal secret of a tunnel's cipher.
pub const X_SECRET_KEY: &'static str = "x-secret";

/// The port the proxy server listens on.
pub const REMOTE_PROXY_PORT: u16 = 24816;

/// The port the local HTTP proxy client listens on.
pub const LOCAL_HTTP_PROXY_PORT: u16 = 7892;

} // verus!
