//! The proxy server's decisions: who may connect, where a tunnel leads, the
//! data password, and when the server has gone unused long enough to be
//! released.
use crate::util::{
    cycle_password, cycled_password, hex_digit, hex_lower, lemma_hex_lower_chars, parse_u16,
    parse_u16_spec,
};
use crate::tencent::TencentCloudClient;
use vstd::prelude::*;
use vstd::string::StringSliceAdditionalSpecFns;

verus! {

/// How long, in seconds, the server stays up without a ping.
pub const PING_EXPIRY_SECS: u64 = 600;

/// The ping state is expired at `now` when more than ten minutes have passed
/// since the last ping.
pub open spec fn ping_expired(last_ping: u64, now: u64) -> bool {
    now - last_ping > PING_EXPIRY_SECS
}

/// The expiry state at `now` of a last ping at `last_ping`: `None` when
/// `now` is before it, else whether it has expired.
pub open spec fn ping_expiry(last_ping: u64, now: u64) -> Option<bool> {
    if now < last_ping {
        None
    } else {
        Some(ping_expired(last_ping, now))
    }
}

/// A ping with token header `token` is accepted by a server whose token is
/// `expected`: the header is present and equals it.
pub open spec fn ping_accepted(token: Option<&[u8]>, expected: Seq<char>) -> bool {
    token matches Some(t) && t@ == vstd::utf8::encode_utf8(expected)
}

/// The state that the server's request handlers share.
pub struct Context {
    pub token: String,
    pub cvm_name: String,
    last_ping_ts: u64,
    pub tx: TencentCloudClient,
}

impl View for Context {
    /// The token, the instance name, the time of the last ping and the
    /// cloud credentials.
    type V = (Seq<char>, Seq<char>, u64, (Seq<char>, Seq<char>));

    closed spec fn view(&self) -> Self::V {
        (self.token@, self.cvm_name@, self.last_ping_ts, self.tx@)
    }
}

/// The current Unix time in whole seconds, read from the system clock:
/// `SystemTime::now()` measured from `UNIX_EPOCH` with `duration_since`, the
/// sub-second part dropped (`as_secs`); `None` when the clock reads a time
/// before 1970, where `duration_since` fails. Trusted, and nothing more is
/// said of the result: it is whatever the clock reads.
#[verifier::external_body]
pub fn now_ts() -> (r: Option<u64>) {
    std::time::SystemTime::now().duration_since(std::time::UNIX_EPOCH).ok().map(|d| d.as_secs())
}

impl Context {
    /// The time of the last ping.
    pub open spec fn last_ping(&self) -> u64 {
        self@.2
    }

    /// A context created now: the current time counts as the last ping.
    /// `None` when the clock cannot be read as a Unix time.
    pub fn new(token: String, cvm_name: String, tx: TencentCloudClient) -> (r: Option<Context>)
        ensures
            r matches Some(c) ==> c@.0 == token@ && c@.1 == cvm_name@ && c@.3 == tx@,
    {
        match now_ts() {
            Some(now) => Some(Context::new_at(token, cvm_name, tx, now)),
            None => None,
        }
    }

    /// A context created at Unix time `now`, which counts as the last ping.
    pub fn new_at(token: String, cvm_name: String, tx: TencentCloudClient, now: u64) -> (r: Context)
        ensures
            r@ == (token@, cvm_name@, now, tx@),
    {
        Context { token, cvm_name, last_ping_ts: now, tx }
    }

    /// The time of the last ping.
    pub fn last_ping_ts(&self) -> (r: u64)
        ensures
            r == self.last_ping(),
    {
        self.last_ping_ts
    }

    /// Records a ping now. `false`, with nothing changed, when the clock
    /// cannot be read as a Unix time.
    pub fn touch_ping_ts(&mut self) -> (r: bool)
        ensures
            final(self)@.0 == old(self)@.0,
            final(self)@.1 == old(self)@.1,
            final(self)@.3 == old(self)@.3,
            !r ==> final(self)@ == old(self)@,
    {
        match now_ts() {
            Some(now) => {
                self.touch_ping_ts_at(now);
                true
            },
            None => false,
        }
    }

    /// Records a ping at Unix time `now`.
    pub fn touch_ping_ts_at(&mut self, now: u64)
        ensures
            final(self)@ == (old(self)@.0, old(self)@.1, now, old(self)@.3),
    {
        self.last_ping_ts = now;
    }

    /// Whether more than ten minutes have passed since the last ping, by the
    /// clock now; `None` when the clock cannot be read as a Unix time or
    /// reads a time before the last ping (the elapsed time would be negative).
    pub fn is_ping_expired(&self) -> (r: Option<bool>)
        ensures
            r matches Some(b) ==> exists|now: u64| #[trigger] ping_expired(self.last_ping(), now) == b
                && now >= self.last_ping(),
    {
        match now_ts() {
            Some(now) => self.ping_expiry_at(now),
            None => None,
        }
    }

    /// Answers a ping whose token header is `token`, at Unix time `now`: the
    /// token must equal the server's, and then the ping is recorded and
    /// answered `pong!`; otherwise it is refused and nothing changes.
    pub fn ping_reply_at(&mut self, token: Option<&[u8]>, now: u64) -> (r: Result<&'static str, Rejection>)
        ensures
            ping_accepted(token, old(self)@.0) ==> (r matches Ok(body) && body@ == "pong!"@
                && final(self)@ == (old(self)@.0, old(self)@.1, now, old(self)@.3)),
            !ping_accepted(token, old(self)@.0) ==> (r matches Err(Rejection::Unauthorized)
                && final(self)@ == old(self)@),
    {
        if !check_token(token, self.token.as_str()) {
            return Err(Rejection::Unauthorized);
        }
        self.touch_ping_ts_at(now);
        Ok("pong!")
    }

    /// The expiry state at Unix time `now`: whether more than ten minutes
    /// have passed since the last ping, or `None` when `now` is before it.
    pub fn ping_expiry_at(&self, now: u64) -> (r: Option<bool>)
        ensures
            r == ping_expiry(self.last_ping(), now),
    {
        if now < self.last_ping_ts {
            None
        } else {
            Some(self.is_ping_expired_at(now))
        }
    }

    /// Whether more than ten minutes have passed, at Unix time `now`, since
    /// the last ping.
    pub fn is_ping_expired_at(&self, now: u64) -> (r: bool)
        requires
            now >= self.last_ping(),
        ensures
            r == ping_expired(self.last_ping(), now),
    {
        let diff = now - self.last_ping_ts;
        diff > PING_EXPIRY_SECS
    }
}

/// After a ping at `touched`, the server counts as unused exactly from more
/// than ten minutes later on.
pub proof fn lemma_ping_window(touched: u64, now: u64)
    requires
        now >= touched,
    ensures
        ping_expired(touched, now) <==> now > touched + PING_EXPIRY_SECS,
        !ping_expired(touched, touched),
{
}

/// The expiry state at any time at or after the last ping is known and is
/// "more than ten minutes have passed": two minutes after a ping the server
/// is not expired, ten minutes and one second after it is; before the last
/// ping there is no answer.
pub proof fn lemma_ping_expiry_exact(last_ping: u64, now: u64)
    ensures
        now >= last_ping ==> ping_expiry(last_ping, now) == Some(now - last_ping > 600),
        now < last_ping ==> ping_expiry(last_ping, now) is None,
        now >= last_ping && now - last_ping <= 600 ==> ping_expiry(last_ping, now) == Some(false),
        now >= last_ping && now - last_ping > 600 ==> ping_expiry(last_ping, now) == Some(true),
{
}

/// The data password of the server: derived from the id of its instance,
/// or sixteen zero bytes when the instance was not found.
pub fn password_for_instance(instance_id: Option<&[u8]>) -> (r: Vec<u8>)
    requires
        instance_id matches Some(id) ==> id@.len() > 0,
    ensures
        match instance_id {
            Some(id) => r@ == cycled_password(id@),
            None => r@ == Seq::new(16, |i: int| 0u8),
        },
{
    match instance_id {
        Some(id) => cycle_password(id),
        None => {
            let mut buf: Vec<u8> = Vec::new();
            let mut i: usize = 0;
            while i < 16
                invariant
                    i <= 16,
                    buf@ == Seq::new(i as nat, |j: int| 0u8),
                decreases 16 - i,
            {
                buf.push(0);
                i = i + 1;
                assert(buf@ =~= Seq::new(i as nat, |j: int| 0u8));
            }
            buf
        },
    }
}

/// A byte that an HTTP header value may hold and still be read as text
/// (`HeaderValue::to_str`): visible ASCII or a tab.
pub open spec fn is_visible_ascii(b: u8) -> bool {
    (32 <= b && b < 127) || b == 9
}

/// All bytes of `s` are visible ASCII.
pub open spec fn all_visible_ascii(s: Seq<u8>) -> bool {
    forall|i: int| 0 <= i < s.len() ==> is_visible_ascii(#[trigger] s[i])
}

fn check_visible_ascii(s: &[u8]) -> (r: bool)
    ensures
        r == all_visible_ascii(s@),
{
    let n = s.len();
    let mut i: usize = 0;
    while i < n
        invariant
            n == s@.len(),
            i <= n,
            forall|j: int| 0 <= j < i ==> is_visible_ascii(#[trigger] s@[j]),
        decreases n - i,
    {
        let b = s[i];
        if !((32 <= b && b < 127) || b == 9) {
            return false;
        }
        i = i + 1;
    }
    true
}

/// Compares two byte strings.
pub fn bytes_eq(a: &[u8], b: &[u8]) -> (r: bool)
    ensures
        r == (a@ == b@),
{
    if a.len() != b.len() {
        return false;
    }
    let n = a.len();
    let mut i: usize = 0;
    while i < n
        invariant
            n == a@.len(),
            n == b@.len(),
            i <= n,
            forall|j: int| 0 <= j < i ==> a@[j] == b@[j],
        decreases n - i,
    {
        if a[i] != b[i] {
            return false;
        }
        i = i + 1;
    }
    assert(a@ =~= b@);
    true
}

/// The value of an ASCII hexadecimal digit (either case).
pub open spec fn hex_value(c: u8) -> Option<u8> {
    if 48 <= c <= 57 {
        Some((c - 48) as u8)
    } else if 97 <= c <= 102 {
        Some((c - 87) as u8)
    } else if 65 <= c <= 70 {
        Some((c - 55) as u8)
    } else {
        None
    }
}

/// What `u8::from_str_radix(s, 16)` gives for the two bytes `c0 c1`: a
/// leading `+` is skipped.
pub open spec fn hex_pair_value(c0: u8, c1: u8) -> Option<u8> {
    if c0 == 43 {
        hex_value(c1)
    } else {
        match (hex_value(c0), hex_value(c1)) {
            (Some(h), Some(l)) => Some((h * 16 + l) as u8),
            _ => None,
        }
    }
}

/// The 16-byte secret carried by a header value: 32 characters, read two at
/// a time as hexadecimal bytes.
pub open spec fn secret_from_header(s: Seq<u8>) -> Option<Seq<u8>> {
    if all_visible_ascii(s) && s.len() == 32 && (forall|k: int| 0 <= k < 16 ==> #[trigger] hex_pair_value(s[2 * k], s[2 * k + 1]) is Some) {
        Some(Seq::new(16, |k: int| hex_pair_value(s[2 * k], s[2 * k + 1]).unwrap()))
    } else {
        None
    }
}

fn hex_digit_value(c: u8) -> (r: Option<u8>)
    ensures
        r == hex_value(c),
{
    if 48 <= c && c <= 57 {
        Some(c - 48)
    } else if 97 <= c && c <= 102 {
        Some(c - 87)
    } else if 65 <= c && c <= 70 {
        Some(c - 55)
    } else {
        None
    }
}

fn parse_hex_pair(c0: u8, c1: u8) -> (r: Option<u8>)
    ensures
        r == hex_pair_value(c0, c1),
{
    if c0 == 43 {
        hex_digit_value(c1)
    } else {
        match (hex_digit_value(c0), hex_digit_value(c1)) {
            (Some(h), Some(l)) => Some(h * 16 + l),
            _ => None,
        }
    }
}

/// Reads the 16-byte secret of a header value, as the server's connection
/// handler does.
pub fn parse_secret(s: &[u8]) -> (r: Option<Vec<u8>>)
    ensures
        match r {
            Some(v) => secret_from_header(s@) == Some(v@),
            None => secret_from_header(s@) is None,
        },
{
    if !check_visible_ascii(s) || s.len() != 32 {
        return None;
    }
    let mut bytes: Vec<u8> = Vec::new();
    let mut k: usize = 0;
    while k < 16
        invariant
            s@.len() == 32,
            k <= 16,
            bytes@.len() == k,
            forall|j: int| 0 <= j < k ==> #[trigger] hex_pair_value(s@[2 * j], s@[2 * j + 1]) == Some(bytes@[j]),
        decreases 16 - k,
    {
        match parse_hex_pair(s[2 * k], s[2 * k + 1]) {
            Some(b) => {
                bytes.push(b);
            },
            None => {
                return None;
            },
        }
        k = k + 1;
    }
    assert(bytes@ =~= Seq::new(16, |j: int| hex_pair_value(s@[2 * j], s@[2 * j + 1]).unwrap()));
    Some(bytes)
}

/// Where an accepted tunnel connects, and with which secret its data is enciphered.
pub struct ConnectTarget {
    pub host: Vec<u8>,
    pub port: u16,
    pub secret: Vec<u8>,
}

/// Why the server refuses a tunnel request.
#[derive(Clone, Copy, Debug, PartialEq, Eq, Structural)]
pub enum Rejection {
    /// The token is missing or wrong (HTTP 401).
    Unauthorized,
    /// The secret, host or port header is missing or malformed (HTTP 400).
    BadRequest,
}

/// The port a header value names, if it is readable text holding a `u16`.
pub open spec fn port_from_header(s: Seq<u8>) -> Option<u16> {
    if all_visible_ascii(s) {
        parse_u16_spec(s)
    } else {
        None
    }
}

/// The server's answer to a tunnel request carrying these header values
/// (`None` for an absent header).
pub open spec fn connect_decision(
    token: Option<Seq<u8>>,
    expected_token: Seq<u8>,
    secret: Option<Seq<u8>>,
    host: Option<Seq<u8>>,
    port: Option<Seq<u8>>,
) -> Result<(Seq<u8>, u16, Seq<u8>), Rejection> {
    if token != Some(expected_token) {
        Err(Rejection::Unauthorized)
    } else if !(secret matches Some(s) && secret_from_header(s) is Some) {
        Err(Rejection::BadRequest)
    } else if !(host matches Some(h) && all_visible_ascii(h)) {
        Err(Rejection::BadRequest)
    } else if !(port matches Some(p) && port_from_header(p) is Some) {
        Err(Rejection::BadRequest)
    } else {
        Ok((host.unwrap(), port_from_header(port.unwrap()).unwrap(), secret_from_header(secret.unwrap()).unwrap()))
    }
}

fn copy_bytes(s: &[u8]) -> (r: Vec<u8>)
    ensures
        r@ == s@,
{
    let mut out: Vec<u8> = Vec::new();
    let n = s.len();
    let mut i: usize = 0;
    while i < n
        invariant
            n == s@.len(),
            i <= n,
            out@ == s@.subrange(0, i as int),
        decreases n - i,
    {
        out.push(s[i]);
        assert(out@ =~= s@.subrange(0, i + 1));
        i = i + 1;
    }
    assert(s@.subrange(0, n as int) =~= s@);
    out
}

/// Decides a tunnel request from its header values: the token must equal
/// `expected_token`, and the secret, host and port headers must be present
/// and well-formed.
pub fn check_connect_headers(
    token: Option<&[u8]>,
    expected_token: &str,
    secret: Option<&[u8]>,
    host: Option<&[u8]>,
    port: Option<&[u8]>,
) -> (r: Result<ConnectTarget, Rejection>)
    ensures
        match connect_decision(
            match token { Some(t) => Some(t@), None => None },
            expected_token.spec_bytes(),
            match secret { Some(t) => Some(t@), None => None },
            match host { Some(t) => Some(t@), None => None },
            match port { Some(t) => Some(t@), None => None },
        ) {
            Ok((h, p, s)) => r matches Ok(t) && t.host@ == h && t.port == p && t.secret@ == s,
            Err(e) => r matches Err(e2) && e2 == e,
        },
        (token matches Some(t) && t@ == expected_token.spec_bytes()) && (secret matches Some(s)
            && secret_from_header(s@) is Some) && (host matches Some(h) && all_visible_ascii(h@)) && (
        port matches Some(p) && parse_u16_spec(p@) is Some && all_visible_ascii(p@)) ==> (r matches Ok(
            t,
        ) && t.host@ == host.unwrap()@ && t.port == parse_u16_spec(port.unwrap()@).unwrap() && t.secret@
            == secret_from_header(secret.unwrap()@).unwrap()),
{
    let token_ok = match token {
        Some(t) => bytes_eq(t, expected_token.as_bytes()),
        None => false,
    };
    if !token_ok {
        return Err(Rejection::Unauthorized);
    }
    let secret_bytes = match secret {
        Some(s) => match parse_secret(s) {
            Some(v) => v,
            None => {
                return Err(Rejection::BadRequest);
            },
        },
        None => {
            return Err(Rejection::BadRequest);
        },
    };
    let host_bytes = match host {
        Some(h) => {
            if !check_visible_ascii(h) {
                return Err(Rejection::BadRequest);
            }
            copy_bytes(h)
        },
        None => {
            return Err(Rejection::BadRequest);
        },
    };
    let port_value = match port {
        Some(p) => {
            if !check_visible_ascii(p) {
                return Err(Rejection::BadRequest);
            }
            match parse_u16(p) {
                Some(v) => v,
                None => {
                    return Err(Rejection::BadRequest);
                },
            }
        },
        None => {
            return Err(Rejection::BadRequest);
        },
    };
    Ok(ConnectTarget { host: host_bytes, port: port_value, secret: secret_bytes })
}

/// Whether a ping request's token header equals the server's token.
pub fn check_token(token: Option<&[u8]>, expected_token: &str) -> (r: bool)
    ensures
        r == (token matches Some(t) && t@ == expected_token.spec_bytes()),
{
    match token {
        Some(t) => bytes_eq(t, expected_token.as_bytes()),
        None => false,
    }
}

proof fn lemma_hex_digit_byte(n: u8)
    requires
        n < 16,
    ensures
        hex_value(hex_digit(n) as u8) == Some(n),
        is_visible_ascii(hex_digit(n) as u8),
        hex_digit(n) as u8 != 43,
        '\0' <= hex_digit(n) <= '\u{7f}',
{
}

/// The secret a client announces, rendered in lowercase hexadecimal as the
/// header's text, is read back by the server as the same sixteen bytes.
pub proof fn lemma_secret_header_roundtrip(secret: Seq<u8>)
    requires
        secret.len() == 16,
    ensures
        secret_from_header(vstd::utf8::encode_utf8(hex_lower(secret))) == Some(secret),
{
    lemma_hex_lower_chars(secret);
    let h = hex_lower(secret);
    assert forall|i: int| 0 <= i < h.len() implies hex_digit(secret[i / 2] / 16) == h[i] || hex_digit(
        secret[i / 2] % 16,
    ) == h[i] by {
        let k = i / 2;
        assert(h[2 * k] == hex_digit(secret[k] / 16));
        assert(h[2 * k + 1] == hex_digit(secret[k] % 16));
        assert(i == 2 * k || i == 2 * k + 1);
    }
    assert(vstd::utf8::is_ascii_chars(h)) by {
        assert forall|i: int| 0 <= i < h.len() implies '\0' <= #[trigger] h[i] <= '\u{7f}' by {
            let k = i / 2;
            lemma_hex_digit_byte(secret[k] / 16);
            lemma_hex_digit_byte(secret[k] % 16);
            assert(h[2 * k] == hex_digit(secret[k] / 16));
            assert(h[2 * k + 1] == hex_digit(secret[k] % 16));
            assert(i == 2 * k || i == 2 * k + 1);
        }
    }
    vstd::utf8::is_ascii_chars_encode_utf8(h);
    let b = vstd::utf8::encode_utf8(h);
    assert(b.len() == 32);
    assert forall|k: int| 0 <= k < 16 implies #[trigger] hex_pair_value(b[2 * k], b[2 * k + 1]) == Some(
        secret[k],
    ) by {
        lemma_hex_digit_byte(secret[k] / 16);
        lemma_hex_digit_byte(secret[k] % 16);
        assert(b[2 * k] == h[2 * k] as u8);
        assert(b[2 * k + 1] == h[2 * k + 1] as u8);
    }
    assert(all_visible_ascii(b)) by {
        assert forall|i: int| 0 <= i < b.len() implies is_visible_ascii(#[trigger] b[i]) by {
            let k = i / 2;
            lemma_hex_digit_byte(secret[k] / 16);
            lemma_hex_digit_byte(secret[k] % 16);
            assert(b[i] == h[i] as u8);
            assert(h[2 * k] == hex_digit(secret[k] / 16));
            assert(h[2 * k + 1] == hex_digit(secret[k] % 16));
            assert(i == 2 * k || i == 2 * k + 1);
        }
    }
    assert(Seq::new(16, |k: int| hex_pair_value(b[2 * k], b[2 * k + 1]).unwrap()) =~= secret);
}

/// The server accepts a tunnel request exactly when the token is right and
/// the secret, host and port headers are well-formed; any host of visible
/// ASCII bytes is accepted as it is (a domain or an address text alike),
/// and the target is that host, the port the header's text reads as and the
/// secret the header's hexadecimal text gives.
pub proof fn lemma_connect_accepts_visible_hosts(
    expected: Seq<u8>,
    secret: Seq<u8>,
    host: Seq<u8>,
    port: Seq<u8>,
)
    requires
        secret_from_header(secret) is Some,
        all_visible_ascii(host),
        all_visible_ascii(port),
        parse_u16_spec(port) is Some,
    ensures
        connect_decision(Some(expected), expected, Some(secret), Some(host), Some(port)) == Ok::<
            (Seq<u8>, u16, Seq<u8>),
            Rejection,
        >((host, parse_u16_spec(port).unwrap(), secret_from_header(secret).unwrap())),
        forall|t: Seq<u8>| t != expected ==> connect_decision(Some(t), expected, Some(secret), Some(host), Some(port))
            == Err::<(Seq<u8>, u16, Seq<u8>), Rejection>(Rejection::Unauthorized),
        connect_decision(None, expected, Some(secret), Some(host), Some(port)) == Err::<
            (Seq<u8>, u16, Seq<u8>),
            Rejection,
        >(Rejection::Unauthorized),
{
}

} // verus!
