//! The relay of a tunnel: what each of its four directions does with each
//! event. The client reads the local connection and sends enciphered chunks
//! to the server over a WebSocket, and writes what the server sends back to
//! the local connection. The server deciphers what the client sends and
//! writes it to the remote host, and sends what the remote host answers back
//! to the client.
use crate::encode::{xor_inplace_simd, xor_with_key, KEY_LEN};
use vstd::prelude::*;

verus! {

/// What one read of a byte stream gave: some bytes (none at the end of the
/// stream), or a failure.
pub enum StreamRead {
    Read(Vec<u8>),
    Failed,
}

/// What one receive from a WebSocket gave.
pub enum WsReceive {
    /// A binary message.
    Binary(Vec<u8>),
    /// A close message.
    Close,
    /// Another kind of message (text, ping, pong).
    Other,
    /// A receive error.
    Failed,
    /// The end of the message stream.
    End,
}

/// What a relay direction does next.
pub enum RelayStep {
    /// Send these binary WebSocket messages, in order; if a send fails, stop
    /// when `stop_on_failure` and go on otherwise.
    Send { messages: Vec<Vec<u8>>, stop_on_failure: bool },
    /// Write `data` to the byte stream; if that write fails, stop when
    /// `stop_on_failure` and go on otherwise.
    Write { data: Vec<u8>, stop_on_failure: bool },
    /// Send a WebSocket close message, then stop.
    CloseAndStop,
    /// Flush the byte stream, then stop.
    FlushAndStop,
    /// Stop.
    Stop,
    /// Ignore the event and go on.
    Continue,
}

/// A read event, with its bytes as a sequence.
pub enum ReadEvent {
    Read(Seq<u8>),
    Failed,
}

/// A WebSocket event, with its bytes as a sequence.
pub enum ReceiveEvent {
    Binary(Seq<u8>),
    Close,
    Other,
    Failed,
    End,
}

/// A relay step, with its bytes as sequences.
pub enum RelayAction {
    Send(Seq<Seq<u8>>, bool),
    Write(Seq<u8>, bool),
    CloseAndStop,
    FlushAndStop,
    Stop,
    Continue,
}

/// The most stream bytes that one WebSocket message carries.
pub const MESSAGE_LIMIT: usize = 1024;

/// The byte sequences as sequences.
pub open spec fn messages_view(v: Seq<Vec<u8>>) -> Seq<Seq<u8>> {
    v.map_values(|m: Vec<u8>| m@)
}

/// `d` cut into messages of `MESSAGE_LIMIT` bytes, the last one shorter
/// when the length is not a multiple of it; no message for no bytes.
pub open spec fn chunks(d: Seq<u8>) -> Seq<Seq<u8>>
    decreases d.len(),
{
    if d.len() == 0 {
        Seq::empty()
    } else if d.len() <= MESSAGE_LIMIT {
        seq![d]
    } else {
        seq![d.take(MESSAGE_LIMIT as int)] + chunks(d.skip(MESSAGE_LIMIT as int))
    }
}

impl View for StreamRead {
    type V = ReadEvent;

    open spec fn view(&self) -> ReadEvent {
        match self {
            StreamRead::Read(d) => ReadEvent::Read(d@),
            StreamRead::Failed => ReadEvent::Failed,
        }
    }
}

impl View for WsReceive {
    type V = ReceiveEvent;

    open spec fn view(&self) -> ReceiveEvent {
        match self {
            WsReceive::Binary(d) => ReceiveEvent::Binary(d@),
            WsReceive::Close => ReceiveEvent::Close,
            WsReceive::Other => ReceiveEvent::Other,
            WsReceive::Failed => ReceiveEvent::Failed,
            WsReceive::End => ReceiveEvent::End,
        }
    }
}

impl View for RelayStep {
    type V = RelayAction;

    open spec fn view(&self) -> RelayAction {
        match self {
            RelayStep::Send { messages, stop_on_failure } => RelayAction::Send(
                messages_view(messages@),
                *stop_on_failure,
            ),
            RelayStep::Write { data, stop_on_failure } => RelayAction::Write(data@, *stop_on_failure),
            RelayStep::CloseAndStop => RelayAction::CloseAndStop,
            RelayStep::FlushAndStop => RelayAction::FlushAndStop,
            RelayStep::Stop => RelayAction::Stop,
            RelayStep::Continue => RelayAction::Continue,
        }
    }
}

/// The client, reading the local connection: each chunk read is
/// enciphered and sent to the server as messages of at most
/// `MESSAGE_LIMIT` bytes (a failed send stops); the end of the stream or a
/// read failure stops.
pub open spec fn client_upstream_spec(ev: ReadEvent, secret: Seq<u8>) -> RelayAction {
    match ev {
        ReadEvent::Read(d) => if d.len() == 0 {
            RelayAction::Stop
        } else {
            RelayAction::Send(chunks(xor_with_key(d, secret)), true)
        },
        ReadEvent::Failed => RelayAction::Stop,
    }
}

/// The client, receiving from the server: a binary message is written to
/// the local connection as it came (a failed write stops); a close message
/// flushes the local connection and stops; other messages and receive
/// errors are ignored; the end of the messages stops.
pub open spec fn client_downstream_spec(ev: ReceiveEvent) -> RelayAction {
    match ev {
        ReceiveEvent::Binary(d) => RelayAction::Write(d, true),
        ReceiveEvent::Close => RelayAction::FlushAndStop,
        ReceiveEvent::Other => RelayAction::Continue,
        ReceiveEvent::Failed => RelayAction::Continue,
        ReceiveEvent::End => RelayAction::Stop,
    }
}

/// The server, receiving from the client: a binary message is deciphered
/// and written to the remote host (a failed write is only logged); a close
/// message, a receive error or the end of the messages stops; other
/// messages are ignored.
pub open spec fn server_upstream_spec(ev: ReceiveEvent, secret: Seq<u8>) -> RelayAction {
    match ev {
        ReceiveEvent::Binary(d) => RelayAction::Write(xor_with_key(d, secret), false),
        ReceiveEvent::Close => RelayAction::Stop,
        ReceiveEvent::Other => RelayAction::Continue,
        ReceiveEvent::Failed => RelayAction::Stop,
        ReceiveEvent::End => RelayAction::Stop,
    }
}

/// The server, reading the remote host: each chunk read is sent to the
/// client as it came, in messages of at most `MESSAGE_LIMIT` bytes (a
/// failed send stops); the end of the stream sends a close message and
/// stops; a read failure is only logged.
pub open spec fn server_downstream_spec(ev: ReadEvent) -> RelayAction {
    match ev {
        ReadEvent::Read(d) => if d.len() == 0 {
            RelayAction::CloseAndStop
        } else {
            RelayAction::Send(chunks(d), true)
        },
        ReadEvent::Failed => RelayAction::Continue,
    }
}

/// Cuts `d` into messages of at most `MESSAGE_LIMIT` bytes, in order.
pub fn split_messages(d: &[u8]) -> (r: Vec<Vec<u8>>)
    ensures
        messages_view(r@) == chunks(d@),
{
    let n = d.len();
    let mut out: Vec<Vec<u8>> = Vec::new();
    let mut i: usize = 0;
    proof {
        assert(d@.skip(0) =~= d@);
        assert(messages_view(out@) =~= Seq::<Seq<u8>>::empty());
    }
    while i < n
        invariant
            n == d@.len(),
            i <= n,
            messages_view(out@) + chunks(d@.skip(i as int)) == chunks(d@),
        decreases n - i,
    {
        let k: usize = if n - i <= MESSAGE_LIMIT { n - i } else { MESSAGE_LIMIT };
        let m = crate::rules::copy_range(d, i, i + k);
        let ghost rest = d@.skip(i as int);
        let ghost before = messages_view(out@);
        out.push(m);
        proof {
            assert(rest.take(k as int) =~= d@.subrange(i as int, i + k));
            assert(rest.skip(k as int) =~= d@.skip(i + k));
            if k < MESSAGE_LIMIT || rest.len() == MESSAGE_LIMIT {
                assert(rest.take(k as int) =~= rest);
                assert(chunks(d@.skip(i + k)) =~= Seq::<Seq<u8>>::empty());
                assert(chunks(rest) == seq![rest]);
            }
            assert(chunks(rest) =~= seq![rest.take(k as int)] + chunks(rest.skip(k as int)));
            assert(messages_view(out@) =~= before.push(m@));
            assert(messages_view(out@) + chunks(d@.skip(i + k)) =~= before + chunks(rest));
        }
        i = i + k;
    }
    proof {
        assert(d@.skip(n as int) =~= Seq::<u8>::empty());
        assert(messages_view(out@) + Seq::<Seq<u8>>::empty() =~= messages_view(out@));
    }
    out
}

/// The client's step on a read of the local connection.
pub fn client_upstream(ev: StreamRead, secret: &[u8]) -> (r: RelayStep)
    requires
        secret@.len() >= KEY_LEN,
    ensures
        r@ == client_upstream_spec(ev@, secret@),
{
    match ev {
        StreamRead::Read(d) => {
            if d.len() == 0 {
                RelayStep::Stop
            } else {
                let mut data = d;
                xor_inplace_simd(data.as_mut_slice(), secret);
                let messages = split_messages(data.as_slice());
                RelayStep::Send { messages, stop_on_failure: true }
            }
        },
        StreamRead::Failed => RelayStep::Stop,
    }
}

/// The client's step on a receive from the server.
pub fn client_downstream(ev: WsReceive) -> (r: RelayStep)
    ensures
        r@ == client_downstream_spec(ev@),
{
    match ev {
        WsReceive::Binary(data) => RelayStep::Write { data, stop_on_failure: true },
        WsReceive::Close => RelayStep::FlushAndStop,
        WsReceive::Other => RelayStep::Continue,
        WsReceive::Failed => RelayStep::Continue,
        WsReceive::End => RelayStep::Stop,
    }
}

/// The server's step on a receive from the client.
pub fn server_upstream(ev: WsReceive, secret: &[u8]) -> (r: RelayStep)
    requires
        secret@.len() >= KEY_LEN,
    ensures
        r@ == server_upstream_spec(ev@, secret@),
{
    match ev {
        WsReceive::Binary(d) => {
            let mut data = d;
            xor_inplace_simd(data.as_mut_slice(), secret);
            RelayStep::Write { data, stop_on_failure: false }
        },
        WsReceive::Close => RelayStep::Stop,
        WsReceive::Other => RelayStep::Continue,
        WsReceive::Failed => RelayStep::Stop,
        WsReceive::End => RelayStep::Stop,
    }
}

/// The server's step on a read of the remote host.
pub fn server_downstream(ev: StreamRead) -> (r: RelayStep)
    ensures
        r@ == server_downstream_spec(ev@),
{
    match ev {
        StreamRead::Read(data) => {
            if data.len() == 0 {
                RelayStep::CloseAndStop
            } else {
                let messages = split_messages(data.as_slice());
                RelayStep::Send { messages, stop_on_failure: true }
            }
        },
        StreamRead::Failed => RelayStep::Continue,
    }
}

/// The messages a step sends (none for a step that sends nothing).
pub open spec fn sent(a: RelayAction) -> Seq<Seq<u8>> {
    match a {
        RelayAction::Send(ms, _) => ms,
        _ => Seq::empty(),
    }
}

/// The bytes a step writes to a byte stream (none for a step that writes nothing).
pub open spec fn written(a: RelayAction) -> Seq<u8> {
    match a {
        RelayAction::Write(d, _) => d,
        _ => Seq::empty(),
    }
}

/// The messages the client sends for the chunks `reads` of the local
/// connection, in order.
pub open spec fn client_sends(reads: Seq<Seq<u8>>, secret: Seq<u8>) -> Seq<Seq<u8>> {
    reads.map_values(|d: Seq<u8>| sent(client_upstream_spec(ReadEvent::Read(d), secret))).flatten()
}

/// The bytes the server writes to the remote host for the messages `ms`.
pub open spec fn server_writes(ms: Seq<Seq<u8>>, secret: Seq<u8>) -> Seq<u8> {
    ms.map_values(|m: Seq<u8>| written(server_upstream_spec(ReceiveEvent::Binary(m), secret))).flatten()
}

/// The messages the server sends for the chunks `reads` of the remote host.
pub open spec fn server_sends(reads: Seq<Seq<u8>>) -> Seq<Seq<u8>> {
    reads.map_values(|d: Seq<u8>| sent(server_downstream_spec(ReadEvent::Read(d)))).flatten()
}

/// The bytes the client writes to the local connection for the messages `ms`.
pub open spec fn client_writes(ms: Seq<Seq<u8>>) -> Seq<u8> {
    ms.map_values(|m: Seq<u8>| written(client_downstream_spec(ReceiveEvent::Binary(m)))).flatten()
}

/// No message is empty or longer than `MESSAGE_LIMIT` bytes, and together
/// they hold `d`.
pub proof fn lemma_chunks(d: Seq<u8>)
    ensures
        chunks(d).flatten() == d,
        forall|j: int| 0 <= j < chunks(d).len() ==> 0 < #[trigger] chunks(d)[j].len() <= MESSAGE_LIMIT,
    decreases d.len(),
{
    if d.len() == 0 {
    } else if d.len() <= MESSAGE_LIMIT {
        seq![d].lemma_flatten_one_element();
    } else {
        let h = d.take(MESSAGE_LIMIT as int);
        let t = d.skip(MESSAGE_LIMIT as int);
        lemma_chunks(t);
        vstd::seq_lib::lemma_flatten_concat(seq![h], chunks(t));
        seq![h].lemma_flatten_one_element();
        assert(h + t =~= d);
        assert forall|j: int| 0 <= j < chunks(d).len() implies 0 < #[trigger] chunks(d)[j].len()
            <= MESSAGE_LIMIT by {
            if j > 0 {
                assert(chunks(d)[j] == chunks(t)[j - 1]);
            }
        }
    }
}

/// The messages of an enciphered chunk, each deciphered on its own, give
/// back the chunk: a message starts at a multiple of `MESSAGE_LIMIT`, a
/// multiple of the key length, so its key bytes line up.
proof fn lemma_chunks_decipher(d: Seq<u8>, secret: Seq<u8>)
    requires
        secret.len() >= KEY_LEN,
    ensures
        chunks(xor_with_key(d, secret)).map_values(|m: Seq<u8>| xor_with_key(m, secret)).flatten() == d,
    decreases d.len(),
{
    let e = xor_with_key(d, secret);
    let f = |m: Seq<u8>| xor_with_key(m, secret);
    if d.len() == 0 {
        assert(chunks(e).map_values(f) =~= Seq::<Seq<u8>>::empty());
    } else if d.len() <= MESSAGE_LIMIT {
        crate::encode::lemma_xor_twice_restores(d, secret);
        assert(chunks(e).map_values(f) =~= seq![d]);
        seq![d].lemma_flatten_one_element();
    } else {
        let l = MESSAGE_LIMIT as int;
        let t = d.skip(l);
        assert(e.skip(l) =~= xor_with_key(t, secret)) by {
            assert forall|i: int| 0 <= i < t.len() implies e.skip(l)[i] == xor_with_key(t, secret)[i] by {
                assert((i + 1024) % 16 == i % 16);
            }
        }
        assert(f(e.take(l)) =~= d.take(l)) by {
            assert forall|i: int| 0 <= i < l implies f(e.take(l))[i] == d.take(l)[i] by {
                let a = d[i];
                let k = secret[i % (KEY_LEN as int)];
                assert((a ^ k) ^ k == a) by (bit_vector);
            }
        }
        lemma_chunks_decipher(t, secret);
        assert(chunks(e).map_values(f) =~= seq![d.take(l)] + chunks(xor_with_key(t, secret)).map_values(f));
        vstd::seq_lib::lemma_flatten_concat(seq![d.take(l)], chunks(xor_with_key(t, secret)).map_values(f));
        seq![d.take(l)].lemma_flatten_one_element();
        assert(d.take(l) + t =~= d);
    }
}

/// What the client reads from the local connection, chunk by chunk, reaches
/// the remote host unchanged and in order: the client enciphers each chunk
/// and sends it in messages of at most `MESSAGE_LIMIT` bytes, and the
/// server, sharing the secret, deciphers each message and writes it.
pub proof fn lemma_upstream_delivers(reads: Seq<Seq<u8>>, secret: Seq<u8>)
    requires
        secret.len() >= KEY_LEN,
        forall|i: int| 0 <= i < reads.len() ==> #[trigger] reads[i].len() > 0,
    ensures
        server_writes(client_sends(reads, secret), secret) == reads.flatten(),
        forall|j: int| 0 <= j < client_sends(reads, secret).len() ==> 0 < #[trigger] client_sends(
            reads,
            secret,
        )[j].len() <= MESSAGE_LIMIT,
    decreases reads.len(),
{
    let f = |m: Seq<u8>| written(server_upstream_spec(ReceiveEvent::Binary(m), secret));
    let g = |d: Seq<u8>| sent(client_upstream_spec(ReadEvent::Read(d), secret));
    if reads.len() == 0 {
        assert(reads.map_values(g) =~= Seq::<Seq<Seq<u8>>>::empty());
        assert(client_sends(reads, secret) =~= Seq::<Seq<u8>>::empty());
        assert(client_sends(reads, secret).map_values(f) =~= Seq::<Seq<u8>>::empty());
    } else {
        let d = reads[0];
        let rest = reads.drop_first();
        assert forall|i: int| 0 <= i < rest.len() implies #[trigger] rest[i].len() > 0 by {
            assert(rest[i] == reads[i + 1]);
        }
        lemma_upstream_delivers(rest, secret);
        let ms = chunks(xor_with_key(d, secret));
        assert(g(d) == ms);
        assert(reads.map_values(g) =~= seq![ms] + rest.map_values(g));
        vstd::seq_lib::lemma_flatten_concat(seq![ms], rest.map_values(g));
        seq![ms].lemma_flatten_one_element();
        assert(client_sends(reads, secret) == ms + client_sends(rest, secret));
        let h = |m: Seq<u8>| xor_with_key(m, secret);
        assert(ms.map_values(f) =~= ms.map_values(h));
        assert((ms + client_sends(rest, secret)).map_values(f) =~= ms.map_values(f) + client_sends(
            rest,
            secret,
        ).map_values(f));
        vstd::seq_lib::lemma_flatten_concat(ms.map_values(f), client_sends(rest, secret).map_values(f));
        lemma_chunks_decipher(d, secret);
        assert(reads =~= seq![d] + rest);
        vstd::seq_lib::lemma_flatten_concat(seq![d], rest);
        seq![d].lemma_flatten_one_element();
        lemma_chunks(xor_with_key(d, secret));
        assert forall|j: int| 0 <= j < client_sends(reads, secret).len() implies 0 < #[trigger] client_sends(
            reads,
            secret,
        )[j].len() <= MESSAGE_LIMIT by {
            if j < ms.len() {
                assert(client_sends(reads, secret)[j] == ms[j]);
            } else {
                assert(client_sends(reads, secret)[j] == client_sends(rest, secret)[j - ms.len()]);
            }
        }
    }
}

/// What the remote host sends, chunk by chunk, reaches the local connection
/// unchanged and in order: the server sends each chunk in messages of at
/// most `MESSAGE_LIMIT` bytes, and the client writes each message as it came.
pub proof fn lemma_downstream_delivers(reads: Seq<Seq<u8>>)
    requires
        forall|i: int| 0 <= i < reads.len() ==> #[trigger] reads[i].len() > 0,
    ensures
        client_writes(server_sends(reads)) == reads.flatten(),
        forall|j: int| 0 <= j < server_sends(reads).len() ==> 0 < #[trigger] server_sends(reads)[j].len()
            <= MESSAGE_LIMIT,
    decreases reads.len(),
{
    let f = |m: Seq<u8>| written(client_downstream_spec(ReceiveEvent::Binary(m)));
    let g = |d: Seq<u8>| sent(server_downstream_spec(ReadEvent::Read(d)));
    if reads.len() == 0 {
        assert(reads.map_values(g) =~= Seq::<Seq<Seq<u8>>>::empty());
        assert(server_sends(reads) =~= Seq::<Seq<u8>>::empty());
        assert(server_sends(reads).map_values(f) =~= Seq::<Seq<u8>>::empty());
    } else {
        let d = reads[0];
        let rest = reads.drop_first();
        assert forall|i: int| 0 <= i < rest.len() implies #[trigger] rest[i].len() > 0 by {
            assert(rest[i] == reads[i + 1]);
        }
        lemma_downstream_delivers(rest);
        let ms = chunks(d);
        assert(g(d) == ms);
        assert(reads.map_values(g) =~= seq![ms] + rest.map_values(g));
        vstd::seq_lib::lemma_flatten_concat(seq![ms], rest.map_values(g));
        seq![ms].lemma_flatten_one_element();
        assert(server_sends(reads) == ms + server_sends(rest));
        assert(ms.map_values(f) =~= ms);
        assert((ms + server_sends(rest)).map_values(f) =~= ms.map_values(f) + server_sends(rest).map_values(f));
        vstd::seq_lib::lemma_flatten_concat(ms.map_values(f), server_sends(rest).map_values(f));
        lemma_chunks(d);
        assert(reads =~= seq![d] + rest);
        vstd::seq_lib::lemma_flatten_concat(seq![d], rest);
        seq![d].lemma_flatten_one_element();
        assert forall|j: int| 0 <= j < server_sends(reads).len() implies 0 < #[trigger] server_sends(reads)[j].len()
            <= MESSAGE_LIMIT by {
            if j < ms.len() {
                assert(server_sends(reads)[j] == ms[j]);
            } else {
                assert(server_sends(reads)[j] == server_sends(rest)[j - ms.len()]);
            }
        }
    }
}

/// The end of the remote host's stream ends the tunnel on both sides: the
/// server sends a close message and stops, and the client, on that close
/// message, flushes the local connection and stops.
pub proof fn lemma_remote_end_closes_tunnel()
    ensures
        server_downstream_spec(ReadEvent::Read(Seq::empty())) == RelayAction::CloseAndStop,
        client_downstream_spec(ReceiveEvent::Close) == RelayAction::FlushAndStop,
{
}

} // verus!
