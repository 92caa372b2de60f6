//! DNS messages of the virtual DNS: framing of DNS over TCP and decoding with
//! `hickory-proto`.
use crate::dns_message::{decode, dns_decode, DnsMessage};
use vstd::prelude::*;

verus! {

/// Why a DNS message could not be read.
pub enum DnsError {
    /// The data is too short for its length prefix.
    InvalidData,
    /// The message could not be decoded; the decoder's reason.
    Decode(String),
    /// The message holds no query.
    NoQuery,
}

/// The DNS message carried by data received over TCP: the bytes after the
/// two-byte big-endian length, as many as the length says.
pub open spec fn tcp_dns_payload_spec(data: Seq<u8>) -> Option<Seq<u8>> {
    if data.len() < 2 {
        None
    } else {
        let len = data[0] as int * 256 + data[1] as int;
        if len + 2 <= data.len() {
            Some(data.subrange(2, len + 2))
        } else {
            None
        }
    }
}

/// The DNS message carried by data received over TCP, if the data holds it whole.
pub fn tcp_dns_payload(data: &[u8]) -> (r: Option<&[u8]>)
    ensures
        match r {
            Some(p) => tcp_dns_payload_spec(data@) == Some(p@),
            None => tcp_dns_payload_spec(data@) is None,
        },
{
    if data.len() < 2 {
        return None;
    }
    let len: usize = (data[0] as usize) * 256 + (data[1] as usize);
    if len + 2 <= data.len() {
        Some(vstd::slice::slice_subrange(data, 2, len + 2))
    } else {
        None
    }
}

/// The bytes that are decoded as a DNS message: the whole data over UDP, the
/// framed payload over TCP.
pub open spec fn dns_payload(data: Seq<u8>, used_by_tcp: bool) -> Option<Seq<u8>> {
    if used_by_tcp {
        tcp_dns_payload_spec(data)
    } else {
        Some(data)
    }
}

/// Reads a DNS message from UDP data, or from TCP data framed with a
/// two-byte length.
pub fn parse_data_to_dns_message(data: &[u8], used_by_tcp: bool) -> (r: Result<DnsMessage, DnsError>)
    ensures
        match dns_payload(data@, used_by_tcp) {
            None => r matches Err(DnsError::InvalidData),
            Some(p) => match dns_decode(p) {
                Ok(names) => r matches Ok(m) && m@ == names && m.payload() == p,
                Err(e) => r matches Err(DnsError::Decode(t)) && t@ == e,
            },
        },
    decreases (if used_by_tcp { 1int } else { 0int }),
{
    if used_by_tcp {
        match tcp_dns_payload(data) {
            Some(p) => parse_data_to_dns_message(p, false),
            None => Err(DnsError::InvalidData),
        }
    } else {
        match decode(data) {
            Ok(m) => Ok(m),
            Err(e) => Err(DnsError::Decode(e)),
        }
    }
}

/// The length header of DNS over TCP for a message of `n` bytes: `n` as two
/// big-endian bytes.
pub open spec fn tcp_length_header(n: nat) -> Seq<u8> {
    seq![(n / 256) as u8, (n % 256) as u8]
}

/// A message framed for TCP with its length, whatever follows it, is read
/// as the same message as the bare message over UDP: both parses decode the
/// same bytes, so they fail alike or give messages decoded from the same
/// payload, with the same queries.
pub proof fn lemma_framed_and_unframed_payload(m: Seq<u8>, extra: Seq<u8>)
    requires
        m.len() <= 65535,
    ensures
        dns_payload(tcp_length_header(m.len()) + m + extra, true) == dns_payload(m, false),
{
    let f = tcp_length_header(m.len()) + m + extra;
    assert(f[0] as int * 256 + f[1] as int == m.len());
    assert(f.subrange(2, m.len() + 2int) =~= m);
}

/// The domain asked for by a message whose queries name `names`, in order:
/// the first name, or `NoQuery` when there is none.
pub fn domain_of_query_names(names: &[String]) -> (r: Result<String, DnsError>)
    ensures
        names@.len() == 0 ==> r matches Err(DnsError::NoQuery),
        names@.len() > 0 ==> (r matches Ok(s) && s@ == names@[0]@),
{
    if names.len() == 0 {
        Err(DnsError::NoQuery)
    } else {
        Ok(names[0].clone())
    }
}

/// The domain of the message's first query, or `NoQuery` when it has none.
pub fn extract_domain_from_dns_message(message: &DnsMessage) -> (r: Result<String, DnsError>)
    ensures
        message@.len() == 0 ==> r matches Err(DnsError::NoQuery),
        message@.len() > 0 ==> (r matches Ok(s) && s@ == message@[0]),
{
    domain_of_query_names(message.query_names())
}

} // verus!
