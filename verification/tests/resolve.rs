use ddns_bridge::question::classify;
use ddns_bridge::question::DnsQuestion;
use ddns_bridge::question::ExtendedRtype;
use ddns_bridge::resolve::finish_resolve;
use ddns_bridge::resolve::oracle_request;
use ddns_bridge::resolve::ResolveError;

use domain::base::iana::rcode::Rcode;
use domain::base::iana::rtype::Rtype;
use domain::base::Dname;
use domain::base::Message;
use domain::base::MessageBuilder;
use domain::base::Ttl;
use domain::rdata::A;
use domain::rdata::Txt;

fn build_query(name: &str, rtype: Rtype) -> Vec<u8> {
    let mut mb = MessageBuilder::new_vec();
    mb.header_mut().set_id(4711);
    let mut qb = mb.question();
    qb.push((&Dname::<Vec<u8>>::vec_from_str(name).unwrap(), rtype))
        .unwrap();
    qb.finish()
}

fn classified(name: &str, rtype: Rtype) -> DnsQuestion {
    let query = build_query(name, rtype);
    classify(&query, &vec!["example".to_string()]).unwrap()
}

#[test]
fn a_question_asks_for_an_address() {
    let q = classified("foo.example.", Rtype::A);
    let req = oracle_request(&q).unwrap().unwrap();
    assert_eq!(req.method, "getIP");
    assert_eq!(req.domain, "foo");
    assert_eq!(req.tld, ".example");
}

#[test]
fn dnslink_question_asks_for_a_content_id() {
    let q = classified("_dnslink.foo.example.", Rtype::A);
    let req = oracle_request(&q).unwrap().unwrap();
    assert_eq!(req.method, "getCID");
    assert_eq!(req.domain, "foo");
    assert_eq!(req.tld, ".example");
}

#[test]
fn txt_question_needs_no_oracle_call() {
    let q = classified("foo.example.", Rtype::Txt);
    assert!(oracle_request(&q).unwrap().is_none());
}

#[test]
fn other_question_is_unsupported() {
    let q = classified("foo.example.", Rtype::Mx);
    assert_eq!(oracle_request(&q).unwrap_err(), ResolveError::UnsupportedType);
    assert_eq!(
        finish_resolve(&q, None, 300).unwrap_err(),
        ResolveError::UnsupportedType
    );
}

#[test]
fn a_answer_becomes_an_a_record() {
    let q = classified("foo.example.", Rtype::A);
    let resp = finish_resolve(&q, Some("93.184.216.34".to_string()), 300).unwrap();
    assert_eq!(resp.ttl, 300);
    let msg = Message::from_octets(resp.packet).unwrap();
    assert_eq!(msg.header().id(), 4711);
    assert!(msg.header().qr());
    assert_eq!(msg.header().rcode(), Rcode::NoError);
    let mut answers = msg.answer().unwrap().limit_to::<A>();
    let rec = answers.next().unwrap().unwrap();
    assert_eq!(rec.owner().to_string(), "foo.example");
    assert_eq!(rec.ttl(), Ttl::from_secs(300));
    assert_eq!(rec.data(), &A::from_octets(93, 184, 216, 34));
    assert!(answers.next().is_none());
}

#[test]
fn dnslink_answer_becomes_a_txt_record() {
    let q = classified("_dnslink.foo.example.", Rtype::A);
    let resp = finish_resolve(&q, Some("bafybeigdyrzt".to_string()), 60).unwrap();
    assert_eq!(resp.ttl, 60);
    let msg = Message::from_octets(resp.packet).unwrap();
    let mut answers = msg.answer().unwrap().limit_to::<Txt<_>>();
    let rec = answers.next().unwrap().unwrap();
    assert_eq!(rec.owner().to_string(), "_dnslink.foo.example");
    assert_eq!(rec.ttl(), Ttl::from_secs(60));
    let text: Vec<u8> = rec.data().text::<Vec<u8>>();
    assert_eq!(text, b"dnslink=bafybeigdyrzt".to_vec());
}

#[test]
fn txt_question_gets_the_placeholder_record() {
    let q = classified("foo.example.", Rtype::Txt);
    let resp = finish_resolve(&q, None, 120).unwrap();
    let msg = Message::from_octets(resp.packet).unwrap();
    let mut answers = msg.answer().unwrap().limit_to::<Txt<_>>();
    let rec = answers.next().unwrap().unwrap();
    let text: Vec<u8> = rec.data().text::<Vec<u8>>();
    assert_eq!(text, b"Simple TXT record".to_vec());
}

#[test]
fn unparsable_address_fails_resolution() {
    let q = classified("foo.example.", Rtype::A);
    let r = finish_resolve(&q, Some("".to_string()), 300);
    assert_eq!(r.unwrap_err(), ResolveError::MalformedAddress);
    let r = finish_resolve(&q, Some("not an address".to_string()), 300);
    assert_eq!(r.unwrap_err(), ResolveError::MalformedAddress);
}

#[test]
fn missing_oracle_answer_fails_resolution() {
    let q = classified("foo.example.", Rtype::A);
    assert_eq!(
        finish_resolve(&q, None, 300).unwrap_err(),
        ResolveError::OracleCallFailed
    );
    let q = classified("_dnslink.foo.example.", Rtype::A);
    assert_eq!(
        finish_resolve(&q, None, 300).unwrap_err(),
        ResolveError::OracleCallFailed
    );
}

#[test]
fn dnslink_intent_is_honored_end_to_end() {
    // The wire type is TXT but the control label decides the intent.
    let q = classified("_dnslink.bar.example.", Rtype::Txt);
    assert_eq!(q.qtype, ExtendedRtype::DNSLink);
    let resp = finish_resolve(&q, Some("qmhash".to_string()), 30).unwrap();
    let msg = Message::from_octets(resp.packet).unwrap();
    let mut answers = msg.answer().unwrap().limit_to::<Txt<_>>();
    let rec = answers.next().unwrap().unwrap();
    let text: Vec<u8> = rec.data().text::<Vec<u8>>();
    assert_eq!(text, b"dnslink=qmhash".to_vec());
}
