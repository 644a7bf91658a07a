//! The oracle resolver and response builder: translates a classified
//! question into the oracle lookup it needs, and turns the oracle's
//! textual answer into a typed resource record inside a response packet.

use vstd::prelude::*;
use vstd::string::StringExecFns;
use crate::ipv4::parse_ipv4;
use crate::ipv4::spec_ipv4_of;
use crate::question::DnsQuestion;
use crate::question::ExtendedRtype;
use crate::wire::a_answer_packet;
use crate::wire::encode_a_answer;
use crate::wire::encode_txt_answer;
use crate::wire::txt_answer_packet;

verus! {

/// Why resolution failed.
#[derive(Clone, Copy, Debug, PartialEq, Eq, Structural)]
pub enum ResolveError {
    /// The oracle's answer to an address lookup is not a dotted-quad IPv4
    /// address.
    MalformedAddress,
    /// The question's record type is none the bridge synthesizes.
    UnsupportedType,
    /// The remote oracle call itself failed.
    OracleCallFailed,
    /// The response packet could not be serialized.
    EncodingFailed,
}

/// One remote lookup against the oracle: the oracle-side operation name
/// and its two string arguments.
#[derive(Debug)]
pub struct OracleRequest {
    /// The oracle operation to invoke.
    pub method: String,
    /// The domain labels joined with dots, without the TLD.
    pub domain: String,
    /// The TLD with a leading dot.
    pub tld: String,
}

/// A synthesized DNS response.
#[derive(Clone, Debug)]
pub struct DnsResponse {
    /// The fully encoded response message.
    pub packet: Vec<u8>,
    /// The TTL applied to the synthesized record.
    pub ttl: u32,
}

/// The oracle operation answering address lookups.
pub open spec fn address_method() -> Seq<char> {
    "getIP"@
}

/// The oracle operation answering content-identifier lookups.
pub open spec fn content_method() -> Seq<char> {
    "getCID"@
}

/// The fixed payload of the placeholder TXT record.
pub open spec fn placeholder_text() -> Seq<char> {
    "Simple TXT record"@
}

/// The DNSLink TXT payload for a content identifier.
pub open spec fn dnslink_text(cid: Seq<char>) -> Seq<char> {
    "dnslink="@ + cid
}

/// How a response relates to the packet the codec can build: the packet
/// and the configured TTL on success, a serialization error otherwise.
pub open spec fn response_matches(
    r: Result<DnsResponse, ResolveError>,
    packet: Option<Seq<u8>>,
    ttl: u32,
) -> bool {
    match packet {
        Some(p) => r matches Ok(resp) && resp.packet@ == p && resp.ttl == ttl,
        None => r == Err::<DnsResponse, ResolveError>(ResolveError::EncodingFailed),
    }
}

/// The remote lookup a question calls for: an address lookup for `A`, a
/// content-identifier lookup for `DNSLink`, none for the stubbed `TXT`,
/// and a rejection for every other type. Both lookups take the domain and
/// the dotted TLD.
pub fn oracle_request(q: &DnsQuestion) -> (r: Result<Option<OracleRequest>, ResolveError>)
    ensures
        q.qtype == ExtendedRtype::A ==> (r matches Ok(req) && req matches Some(req) && {
            &&& req.method@ == address_method()
            &&& req.domain@ == q.domain@
            &&& req.tld@ == "."@ + q.tld@
        }),
        q.qtype == ExtendedRtype::DNSLink ==> (r matches Ok(req) && req matches Some(req) && {
            &&& req.method@ == content_method()
            &&& req.domain@ == q.domain@
            &&& req.tld@ == "."@ + q.tld@
        }),
        q.qtype == ExtendedRtype::Txt ==> r == Ok::<Option<OracleRequest>, ResolveError>(None),
        q.qtype matches ExtendedRtype::Other(_) ==> r == Err::<Option<OracleRequest>,
            ResolveError>(ResolveError::UnsupportedType),
{
    match q.qtype {
        ExtendedRtype::A => Ok(
            Some(
                OracleRequest {
                    method: String::from_str("getIP"),
                    domain: q.domain.clone(),
                    tld: String::from_str(".").concat(q.tld.as_str()),
                },
            ),
        ),
        ExtendedRtype::DNSLink => Ok(
            Some(
                OracleRequest {
                    method: String::from_str("getCID"),
                    domain: q.domain.clone(),
                    tld: String::from_str(".").concat(q.tld.as_str()),
                },
            ),
        ),
        ExtendedRtype::Txt => Ok(None),
        ExtendedRtype::Other(_) => Err(ResolveError::UnsupportedType),
    }
}

/// Builds the response for a classified question from the outcome of its
/// oracle lookup (`None` when the remote call failed or was never made).
///
/// An `A` answer must be canonical dotted-quad IPv4 text and becomes an A
/// record; a `DNSLink` answer is embedded verbatim in a TXT record as
/// `dnslink=<answer>`; `TXT` takes a fixed placeholder record and needs no
/// oracle answer; every other type is rejected. The response echoes the
/// original message and carries the configured TTL.
pub fn finish_resolve(q: &DnsQuestion, answer: Option<String>, ttl: u32) -> (r: Result<
    DnsResponse,
    ResolveError,
>)
    ensures
        q.qtype matches ExtendedRtype::Other(_) ==> r == Err::<DnsResponse, ResolveError>(
            ResolveError::UnsupportedType,
        ),
        (q.qtype == ExtendedRtype::A || q.qtype == ExtendedRtype::DNSLink) && answer is None ==> r
            == Err::<DnsResponse, ResolveError>(ResolveError::OracleCallFailed),
        q.qtype == ExtendedRtype::A ==> (answer matches Some(v) ==> match spec_ipv4_of(v@) {
            None => r == Err::<DnsResponse, ResolveError>(ResolveError::MalformedAddress),
            Some(oct) => response_matches(
                r,
                a_answer_packet(q.msg@, q.fulldomain@, ttl, oct.0, oct.1, oct.2, oct.3),
                ttl,
            ),
        }),
        q.qtype == ExtendedRtype::Txt ==> response_matches(
            r,
            txt_answer_packet(q.msg@, q.fulldomain@, ttl, placeholder_text()),
            ttl,
        ),
        q.qtype == ExtendedRtype::DNSLink ==> (answer matches Some(v) ==> response_matches(
            r,
            txt_answer_packet(q.msg@, q.fulldomain@, ttl, dnslink_text(v@)),
            ttl,
        )),
{
    match q.qtype {
        ExtendedRtype::A => {
            let v = match answer {
                Some(v) => v,
                None => {
                    return Err(ResolveError::OracleCallFailed);
                },
            };
            let (o0, o1, o2, o3) = match parse_ipv4(v.as_str()) {
                Some(oct) => oct,
                None => {
                    return Err(ResolveError::MalformedAddress);
                },
            };
            match encode_a_answer(&q.msg, q.fulldomain.as_str(), ttl, o0, o1, o2, o3) {
                Some(p) => Ok(DnsResponse { packet: p, ttl: ttl }),
                None => Err(ResolveError::EncodingFailed),
            }
        },
        ExtendedRtype::Txt => {
            let text: String = String::from_str("Simple TXT record");
            match encode_txt_answer(&q.msg, q.fulldomain.as_str(), ttl, text.as_str()) {
                Some(p) => Ok(DnsResponse { packet: p, ttl: ttl }),
                None => Err(ResolveError::EncodingFailed),
            }
        },
        ExtendedRtype::DNSLink => {
            let v = match answer {
                Some(v) => v,
                None => {
                    return Err(ResolveError::OracleCallFailed);
                },
            };
            let payload: String = String::from_str("dnslink=").concat(v.as_str());
            match encode_txt_answer(&q.msg, q.fulldomain.as_str(), ttl, payload.as_str()) {
                Some(p) => Ok(DnsResponse { packet: p, ttl: ttl }),
                None => Err(ResolveError::EncodingFailed),
            }
        },
        ExtendedRtype::Other(_) => Err(ResolveError::UnsupportedType),
    }
}

} // verus!
