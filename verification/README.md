# cloudtun

CloudTun is a low-cost network proxy that runs its server on a cheap cloud
spot instance. The client reaches the server over a WebSocket, names the
target host and port in HTTP headers, and sends the traffic enciphered with
a 16-byte XOR key; the server releases its instance after ten minutes
without a ping.

The library under `src/` is written in Verus. Its functions carry
contracts and are proved against them, except a few trusted wrappers, each
marked `#[verifier::external_body]` with its contract stated in its doc
comment: the SHA-256, HMAC and UTC-date calls of the request signature, the
DNS decoder, and the system clock.

- `encode` — the XOR cipher, and that applying it twice restores the data.
- `relay` — what each direction of a tunnel does with each read or message,
  the 1 KB limit on messages, and that both directions deliver a whole
  stream unchanged.
- `route`, `rules` — the rule file parser and the suffix trie of route rules.
- `server`, `server_fc` — the server's header checks, data password and
  ping expiry.
- `proxy`, `ping`, `notify` — the client's tunnel request and settings, the
  ping request and loop decisions, the notification page.
- `tencent` — the TC3-HMAC-SHA256 request signature and the API request and
  reply handling.
- `dns`, `dns_message`, `vpn_session`, `args` — the mobile VPN: DNS message
  framing and decoding, the
  dispatch of accepted connections, the one-VPN-at-a-time slot, the tun name.
- `util`, `constant` — hexadecimal and decimal text, the password
  derivation, shared names and ports.

`app/` holds the I/O around the library (HTTP calls, sockets, WebSockets,
timers, JSON forms of the message types), and `tests/` its tests.
