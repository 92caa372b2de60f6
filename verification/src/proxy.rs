//! The proxy client: its settings, the secret of its tunnels, the request
//! that opens a tunnel to the server, and how a CONNECT request is routed.
use crate::constant::{
    LOCAL_HTTP_PROXY_PORT, REMOTE_PROXY_PORT, X_CONNECT_HOST_KEY, X_CONNECT_PORT_KEY, X_SECRET_KEY,
    X_TOKEN_KEY,
};
use crate::route::{matched_rule, MatchType, RouteMatcher};
use crate::tencent::headers_view;
use crate::server::{
    all_visible_ascii, connect_decision, is_visible_ascii, lemma_secret_header_roundtrip, Rejection,
};
use crate::util::{
    cycle_password, cycled_password, dec_bytes, dec_nat, hex_lower, is_dec_digit, lemma_dec_bytes,
    lemma_port_text_roundtrip, to_hex_lower, u64_to_decimal,
};
use vstd::prelude::*;
use vstd::string::{StringExecFns, StringSliceAdditionalSpecFns};

verus! {

/// The settings of the local proxy client.
pub struct ProxyArgs {
    /// The server's address, port and token.
    pub server_addr: (String, u16, String),
    /// The data password.
    pub password: Vec<u8>,
    /// The local address and port to listen on.
    pub local_addr: (String, u16),
    /// The rule for domains that no rule matches.
    pub default_rule: MatchType,
    /// The path of the rule file, if any.
    pub proxy_rules: Option<String>,
}

impl ProxyArgs {
    /// The settings the desktop app uses for a cloud host: the server at
    /// `server_ip` on the proxy port, listening on all interfaces on the
    /// local proxy port, proxying every domain, with the password derived
    /// from the instance id.
    pub fn for_cloud_host(server_ip: &str, token: &str, cvm_id: &str) -> (r: ProxyArgs)
        requires
            cvm_id.spec_bytes().len() > 0,
        ensures
            r.server_addr.0@ == server_ip@,
            r.server_addr.1 == REMOTE_PROXY_PORT,
            r.server_addr.2@ == token@,
            r.local_addr.0@ == "0.0.0.0"@,
            r.local_addr.1 == LOCAL_HTTP_PROXY_PORT,
            r.default_rule == MatchType::Proxy,
            r.proxy_rules is None,
            r.password@ == cycled_password(cvm_id.spec_bytes()),
    {
        let password = cycle_password(cvm_id.as_bytes());
        ProxyArgs {
            server_addr: (String::from_str(server_ip), REMOTE_PROXY_PORT, String::from_str(token)),
            password,
            local_addr: (String::from_str("0.0.0.0"), LOCAL_HTTP_PROXY_PORT),
            default_rule: MatchType::Proxy,
            proxy_rules: None,
        }
    }
}

/// The secret of the client's tunnels: sixteen zero bytes, with its
/// lowercase hexadecimal rendering.
pub fn generate_proxy_secret() -> (r: (Vec<u8>, String))
    ensures
        r.0@ == Seq::new(16, |i: int| 0u8),
        r.1@ == hex_lower(r.0@),
{
    let mut secret: Vec<u8> = Vec::new();
    let mut i: usize = 0;
    while i < 16
        invariant
            i <= 16,
            secret@ == Seq::new(i as nat, |j: int| 0u8),
        decreases 16 - i,
    {
        secret.push(0);
        i = i + 1;
        assert(secret@ =~= Seq::new(i as nat, |j: int| 0u8));
    }
    let secret_hex = to_hex_lower(secret.as_slice());
    (secret, secret_hex)
}

/// The WebSocket request that opens a tunnel through the server.
pub struct TunnelRequest {
    pub url: String,
    pub headers: Vec<(String, String)>,
}

/// The URL of the server's tunnel endpoint.
pub open spec fn tunnel_url(server_host: Seq<char>, server_port: u16) -> Seq<char> {
    "ws://"@ + server_host + ":"@ + dec_nat(server_port as nat) + "/ws"@
}

/// The headers of a tunnel request to `target_host:target_port`.
pub open spec fn tunnel_headers(
    token: Seq<char>,
    target_host: Seq<char>,
    target_port: u16,
    secret_hex: Seq<char>,
) -> Seq<(Seq<char>, Seq<char>)> {
    seq![
        (X_TOKEN_KEY@, token),
        (X_CONNECT_HOST_KEY@, target_host),
        (X_CONNECT_PORT_KEY@, dec_nat(target_port as nat)),
        (X_SECRET_KEY@, secret_hex),
    ]
}

/// The value of the first header named `name` in `hs`, if any.
pub open spec fn header_value(hs: Seq<(Seq<char>, Seq<char>)>, name: Seq<char>) -> Option<Seq<char>>
    decreases hs.len(),
{
    if hs.len() == 0 {
        None
    } else if hs[0].0 == name {
        Some(hs[0].1)
    } else {
        header_value(hs.drop_first(), name)
    }
}

/// A header value as the bytes that are sent.
pub open spec fn header_bytes(v: Option<Seq<char>>) -> Option<Seq<u8>> {
    match v {
        Some(s) => Some(vstd::utf8::encode_utf8(s)),
        None => None,
    }
}

/// The four header names of a tunnel request are different.
proof fn lemma_tunnel_header_names_distinct()
    ensures
        X_TOKEN_KEY@ != X_CONNECT_HOST_KEY@,
        X_TOKEN_KEY@ != X_CONNECT_PORT_KEY@,
        X_TOKEN_KEY@ != X_SECRET_KEY@,
        X_CONNECT_HOST_KEY@ != X_CONNECT_PORT_KEY@,
        X_CONNECT_HOST_KEY@ != X_SECRET_KEY@,
        X_CONNECT_PORT_KEY@ != X_SECRET_KEY@,
{
    reveal_strlit("x-token");
    reveal_strlit("x-connect-host");
    reveal_strlit("x-connect-port");
    reveal_strlit("x-secret");
    assert(X_TOKEN_KEY@.len() == 7);
    assert(X_CONNECT_HOST_KEY@.len() == 14);
    assert(X_CONNECT_PORT_KEY@.len() == 14);
    assert(X_SECRET_KEY@.len() == 8);
    assert(X_CONNECT_HOST_KEY@[10] != X_CONNECT_PORT_KEY@[10]);
}

/// The value each tunnel header name finds among the tunnel headers.
proof fn lemma_tunnel_header_lookup(token: Seq<char>, host: Seq<char>, port: u16, secret_hex: Seq<char>)
    ensures
        header_value(tunnel_headers(token, host, port, secret_hex), X_TOKEN_KEY@) == Some(token),
        header_value(tunnel_headers(token, host, port, secret_hex), X_CONNECT_HOST_KEY@) == Some(host),
        header_value(tunnel_headers(token, host, port, secret_hex), X_CONNECT_PORT_KEY@) == Some(
            dec_nat(port as nat),
        ),
        header_value(tunnel_headers(token, host, port, secret_hex), X_SECRET_KEY@) == Some(secret_hex),
{
    lemma_tunnel_header_names_distinct();
    let hs = tunnel_headers(token, host, port, secret_hex);
    reveal_with_fuel(header_value, 5);
    assert(hs.drop_first() =~= seq![hs[1], hs[2], hs[3]]);
    assert(hs.drop_first().drop_first() =~= seq![hs[2], hs[3]]);
    assert(hs.drop_first().drop_first().drop_first() =~= seq![hs[3]]);
}

/// What the client announces in a tunnel request is what the server reads:
/// with the server's token, any port and any 16-byte secret announced in
/// hexadecimal, the server's check of the request's headers accepts it and
/// connects to that host and port with that secret, whenever the host is
/// visible ASCII text.
pub proof fn lemma_tunnel_request_accepted(token: Seq<char>, host: Seq<char>, port: u16, secret: Seq<u8>)
    requires
        secret.len() == 16,
        all_visible_ascii(vstd::utf8::encode_utf8(host)),
    ensures
        ({
            let hs = tunnel_headers(token, host, port, hex_lower(secret));
            connect_decision(
                header_bytes(header_value(hs, X_TOKEN_KEY@)),
                vstd::utf8::encode_utf8(token),
                header_bytes(header_value(hs, X_SECRET_KEY@)),
                header_bytes(header_value(hs, X_CONNECT_HOST_KEY@)),
                header_bytes(header_value(hs, X_CONNECT_PORT_KEY@)),
            ) == Ok::<(Seq<u8>, u16, Seq<u8>), Rejection>((vstd::utf8::encode_utf8(host), port, secret))
        }),
{
    lemma_tunnel_header_lookup(token, host, port, hex_lower(secret));
    lemma_secret_header_roundtrip(secret);
    lemma_port_text_roundtrip(port);
    lemma_dec_bytes(port as nat);
    let pb = vstd::utf8::encode_utf8(dec_nat(port as nat));
    assert(all_visible_ascii(pb)) by {
        assert forall|i: int| 0 <= i < pb.len() implies is_visible_ascii(#[trigger] pb[i]) by {
            assert(is_dec_digit(dec_bytes(port as nat)[i]));
        }
    }
}

/// Builds the request that opens a tunnel through the server `server`
/// (address, port, token) to `target_host:target_port`, announcing the
/// secret's hexadecimal rendering.
pub fn tunnel_request(
    server: &(String, u16, String),
    target_host: &str,
    target_port: u16,
    secret_hex: &str,
) -> (r: TunnelRequest)
    ensures
        r.url@ == tunnel_url(server.0@, server.1),
        headers_view(r.headers@) == tunnel_headers(server.2@, target_host@, target_port, secret_hex@),
        header_value(headers_view(r.headers@), X_TOKEN_KEY@) == Some(server.2@),
        header_value(headers_view(r.headers@), X_CONNECT_HOST_KEY@) == Some(target_host@),
        header_value(headers_view(r.headers@), X_CONNECT_PORT_KEY@) == Some(dec_nat(target_port as nat)),
        header_value(headers_view(r.headers@), X_SECRET_KEY@) == Some(secret_hex@),
{
    let mut url = String::new();
    url.append("ws://");
    url.append(server.0.as_str());
    url.append(":");
    let port_text = u64_to_decimal(server.1 as u64);
    url.append(port_text.as_str());
    url.append("/ws");
    assert(url@ =~= tunnel_url(server.0@, server.1));
    let mut headers: Vec<(String, String)> = Vec::new();
    headers.push((String::from_str(X_TOKEN_KEY), server.2.clone()));
    headers.push((String::from_str(X_CONNECT_HOST_KEY), String::from_str(target_host)));
    headers.push((String::from_str(X_CONNECT_PORT_KEY), u64_to_decimal(target_port as u64)));
    headers.push((String::from_str(X_SECRET_KEY), String::from_str(secret_hex)));
    assert(headers_view(headers@) =~= tunnel_headers(server.2@, target_host@, target_port, secret_hex@));
    proof {
        lemma_tunnel_header_lookup(server.2@, target_host@, target_port, secret_hex@);
    }
    TunnelRequest { url, headers }
}

/// How the client handles a CONNECT request to `host` with `port` (80 when
/// the request names none): the route rule of the host, and the port.
pub fn plan_connect(router: &RouteMatcher, host: &str, port: Option<u16>) -> (r: (MatchType, u16))
    requires
        router.wf(),
    ensures
        r.0 == matched_rule(router.rules(), router.default_match(), host.spec_bytes()),
        r.1 == match port {
            Some(p) => p,
            None => 80u16,
        },
{
    let rule = router.match_domain(host);
    let p = match port {
        Some(p) => p,
        None => 80,
    };
    (rule, p)
}

/// The answer to a CONNECT request that names no host: a status code and
/// its body.
pub struct BadConnect {
    pub status: u16,
    pub body: &'static str,
}

/// How the client handles a CONNECT request whose target is `authority`
/// (host and port, if the request names one): without a target it answers
/// `400` with `CONNECT must be to a socket address`; otherwise as
/// `plan_connect` decides.
pub fn answer_connect(router: &RouteMatcher, authority: Option<(&str, Option<u16>)>) -> (r: Result<
    (MatchType, u16),
    BadConnect,
>)
    requires
        router.wf(),
    ensures
        match authority {
            None => r matches Err(b) && b.status == 400 && b.body@ == "CONNECT must be to a socket address"@,
            Some((host, port)) => r matches Ok((m, p)) && m == matched_rule(
                router.rules(),
                router.default_match(),
                host.spec_bytes(),
            ) && p == match port {
                Some(q) => q,
                None => 80u16,
            },
        },
{
    match authority {
        None => Err(BadConnect { status: 400, body: "CONNECT must be to a socket address" }),
        Some((host, port)) => Ok(plan_connect(router, host, port)),
    }
}

} // verus!
