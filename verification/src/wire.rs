//! Trusted boundary to the DNS wire-format codec of the `domain` crate.
//!
//! Decoding a query and serializing a response are deterministic functions
//! of their inputs; the codec itself is outside this library, so those
//! functions are given names here and the wrappers' contracts speak of
//! them. Everything that inspects or builds the decoded values is verified
//! code elsewhere in the crate.

use vstd::prelude::*;
use domain::base::Dname;
use domain::base::Message;
use domain::base::MessageBuilder;
use domain::base::iana::Rcode;
use domain::rdata::A;
use domain::rdata::Txt;

verus! {

/// The sole question of a DNS wire message, if the message decodes and
/// carries exactly one question: the question name's labels in order, each
/// in its textual form (the trailing root label as the empty string), and
/// the wire-encoded query type code. Decoding depends on the bytes alone.
pub uninterp spec fn decoded_question(raw: Seq<u8>) -> Option<(Seq<Seq<char>>, u16)>;

/// The wire encoding of a response to `query` that echoes its identifier
/// and question, carries the `NoError` response code, and answers with one
/// A record `(name, ttl, o0.o1.o2.o3)`; nothing if building it fails.
pub uninterp spec fn a_answer_packet(
    query: Seq<u8>,
    name: Seq<char>,
    ttl: u32,
    o0: u8,
    o1: u8,
    o2: u8,
    o3: u8,
) -> Option<Seq<u8>>;

/// The wire encoding of a response to `query` as above, answering with one
/// TXT record holding `text`; nothing if building it fails.
pub uninterp spec fn txt_answer_packet(
    query: Seq<u8>,
    name: Seq<char>,
    ttl: u32,
    text: Seq<char>,
) -> Option<Seq<u8>>;

/// Relies on domain's `Message::from_octets`, `Message::sole_question`,
/// `ParsedDname::iter`, `Label`'s `Display` and `Rtype::to_int`: decodes
/// the message, requires exactly one question, and hands back the labels
/// of its name in textual form together with the query type code.
#[verifier::external_body]
pub fn decode_sole_question(raw: &Vec<u8>) -> (r: Option<(Vec<String>, u16)>)
    ensures
        match r {
            Some(p) => decoded_question(raw@) == Some((p.0@.map_values(|s: String| s@), p.1)),
            None => decoded_question(raw@) is None,
        },
{
    let msg = match Message::from_octets(raw.clone()) { Ok(m) => m, Err(_) => return None };
    let q = match msg.sole_question() { Ok(q) => q, Err(_) => return None };
    let mut labels: Vec<String> = Vec::new();
    for label in q.qname().iter() {
        labels.push(label.to_string());
    }
    Some((labels, q.qtype().to_int()))
}

/// Relies on domain's `MessageBuilder::start_answer` (with rcode
/// `NoError`), `Dname::vec_from_str`, `A::from_octets` and
/// `AnswerBuilder::push`: builds and serializes a response to `query`
/// answering with one A record.
#[verifier::external_body]
pub fn encode_a_answer(query: &Vec<u8>, name: &str, ttl: u32, o0: u8, o1: u8, o2: u8, o3: u8) -> (r:
    Option<Vec<u8>>)
    ensures
        match r {
            Some(p) => Some(p@) == a_answer_packet(query@, name@, ttl, o0, o1, o2, o3),
            None => a_answer_packet(query@, name@, ttl, o0, o1, o2, o3) is None,
        },
{
    let msg = match Message::from_octets(query.clone()) { Ok(m) => m, Err(_) => return None };
    let builder = MessageBuilder::new_vec();
    let mut answer = match builder.start_answer(&msg, Rcode::NoError) { Ok(a) => a, Err(_) => return None };
    let dname = match Dname::<Vec<u8>>::vec_from_str(name) { Ok(d) => d, Err(_) => return None };
    let rdata = A::from_octets(o0, o1, o2, o3);
    match answer.push((dname, ttl, rdata)) { Ok(()) => Some(answer.finish()), Err(_) => None }
}

/// Relies on domain's `MessageBuilder::start_answer` (with rcode
/// `NoError`), `Dname::vec_from_str`, `Txt::build_from_slice` and
/// `AnswerBuilder::push`: builds and serializes a response to `query`
/// answering with one TXT record.
#[verifier::external_body]
pub fn encode_txt_answer(query: &Vec<u8>, name: &str, ttl: u32, text: &str) -> (r: Option<Vec<u8>>)
    ensures
        match r {
            Some(p) => Some(p@) == txt_answer_packet(query@, name@, ttl, text@),
            None => txt_answer_packet(query@, name@, ttl, text@) is None,
        },
{
    let msg = match Message::from_octets(query.clone()) { Ok(m) => m, Err(_) => return None };
    let builder = MessageBuilder::new_vec();
    let mut answer = match builder.start_answer(&msg, Rcode::NoError) { Ok(a) => a, Err(_) => return None };
    let dname = match Dname::<Vec<u8>>::vec_from_str(name) { Ok(d) => d, Err(_) => return None };
    let rdata = match Txt::<Vec<u8>>::build_from_slice(text.as_bytes()) { Ok(t) => t, Err(_) => return None };
    match answer.push((dname, ttl, rdata)) { Ok(()) => Some(answer.finish()), Err(_) => None }
}

} // verus!
