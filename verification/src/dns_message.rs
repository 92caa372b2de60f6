//! A DNS message decoded with `hickory-proto`, together with the bytes it
//! was decoded from and the names of its queries. Only `decode` makes one,
//! so the message a `DnsMessage` holds is always the decoding of its
//! payload.
use hickory_proto::op::Message;
use vstd::prelude::*;

verus! {

#[verifier::external_type_specification]
#[verifier::external_body]
pub struct ExMessage(Message);

/// What `hickory_proto::op::Message::from_vec` gives for `data`: the names
/// of the decoded message's queries, in order, as text (`Name`'s
/// `Display`), or the text of the decoder's error.
pub uninterp spec fn dns_decode(data: Seq<u8>) -> Result<Seq<Seq<char>>, Seq<char>>;

/// The strings as character sequences.
pub open spec fn strings_view(v: Seq<String>) -> Seq<Seq<char>> {
    v.map_values(|s: String| s@)
}

/// A decoded DNS message, with the names of its queries read out.
pub struct DnsMessage {
    message: Message,
    query_names: Vec<String>,
    payload: Ghost<Seq<u8>>,
}

impl View for DnsMessage {
    /// The names of the message's queries, in order.
    type V = Seq<Seq<char>>;

    closed spec fn view(&self) -> Seq<Seq<char>> {
        strings_view(self.query_names@)
    }
}

impl DnsMessage {
    /// The bytes the message was decoded from.
    pub closed spec fn payload(&self) -> Seq<u8> {
        self.payload@
    }

    /// The message decoded from the payload.
    pub closed spec fn decoded(&self) -> Message {
        self.message
    }

    /// The decoded message.
    pub fn message(&self) -> (r: &Message)
        ensures
            *r == self.decoded(),
    {
        &self.message
    }

    /// The decoded message, taken out.
    pub fn into_message(self) -> (r: Message)
        ensures
            r == self.decoded(),
    {
        self.message
    }

    /// The names of the message's queries, in order.
    pub fn query_names(&self) -> (r: &[String])
        ensures
            strings_view(r@) == self@,
    {
        self.query_names.as_slice()
    }
}

/// Decodes a DNS message with `hickory_proto::op::Message::from_vec` and
/// reads the names of its queries (`Message::queries`, each `Query::name`
/// written with `to_string`). Trusted: the names, or the decoder's error
/// given as its text, are `dns_decode` of the bytes.
#[verifier::external_body]
fn decode_message(data: &[u8]) -> (r: Result<(Message, Vec<String>), String>)
    ensures
        match r {
            Ok((_, names)) => dns_decode(data@) == Ok::<Seq<Seq<char>>, Seq<char>>(strings_view(names@)),
            Err(e) => dns_decode(data@) == Err::<Seq<Seq<char>>, Seq<char>>(e@),
        },
{
    match Message::from_vec(data) {
        Ok(m) => {
            let names = m.queries().iter().map(|q| q.name().to_string()).collect();
            Ok((m, names))
        },
        Err(e) => Err(e.to_string()),
    }
}

/// Decodes the DNS message in `data`: on success, a message whose payload is
/// `data` and whose query names are those `dns_decode` gives; on failure,
/// the decoder's error text.
pub fn decode(data: &[u8]) -> (r: Result<DnsMessage, String>)
    ensures
        match dns_decode(data@) {
            Ok(names) => r matches Ok(m) && m@ == names && m.payload() == data@,
            Err(e) => r matches Err(t) && t@ == e,
        },
{
    match decode_message(data) {
        Ok((message, query_names)) => Ok(DnsMessage { message, query_names, payload: Ghost(data@) }),
        Err(e) => Err(e),
    }
}

} // verus!
