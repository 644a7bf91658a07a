use ddns_bridge::question::classify;
use ddns_bridge::question::ClassifyError;
use ddns_bridge::question::ExtendedRtype;

use domain::base::iana::rtype::Rtype;
use domain::base::Dname;
use domain::base::MessageBuilder;

fn build_query(name: &str, rtype: Rtype) -> Vec<u8> {
    let mut mb = MessageBuilder::new_vec();
    mb.header_mut().set_id(4711);
    let mut qb = mb.question();
    qb.push((&Dname::<Vec<u8>>::vec_from_str(name).unwrap(), rtype))
        .unwrap();
    qb.finish()
}

fn tld_set(tlds: &[&str]) -> Vec<String> {
    tlds.iter().map(|t| t.to_string()).collect()
}

#[test]
fn classify_a_question() {
    let query = build_query("foo.example.", Rtype::A);
    let q = classify(&query, &tld_set(&["example"])).unwrap();
    assert!(q.forward);
    assert_eq!(q.fulldomain, "foo.example");
    assert_eq!(q.domain, "foo");
    assert_eq!(q.tld, "example");
    assert_eq!(q.qtype, ExtendedRtype::A);
    assert_eq!(q.msg, query);
}

#[test]
fn forward_requires_registered_tld() {
    let query = build_query("foo.example.", Rtype::A);
    let q = classify(&query, &tld_set(&["eth", "crypto"])).unwrap();
    assert!(!q.forward);
    let q = classify(&query, &tld_set(&["eth", "example"])).unwrap();
    assert!(q.forward);
}

#[test]
fn tld_match_is_case_sensitive() {
    let query = build_query("foo.example.", Rtype::A);
    let q = classify(&query, &tld_set(&["Example"])).unwrap();
    assert!(!q.forward);
}

#[test]
fn control_label_forces_dnslink_intent() {
    let query = build_query("_dnslink.foo.example.", Rtype::A);
    let q = classify(&query, &tld_set(&["example"])).unwrap();
    assert_eq!(q.qtype, ExtendedRtype::DNSLink);
    assert_eq!(q.fulldomain, "_dnslink.foo.example");
    assert_eq!(q.domain, "foo");
    assert_eq!(q.tld, "example");
}

#[test]
fn control_label_forces_dnslink_for_txt_wire_type() {
    let query = build_query("_dnslink.foo.example.", Rtype::Txt);
    let q = classify(&query, &tld_set(&["example"])).unwrap();
    assert_eq!(q.qtype, ExtendedRtype::DNSLink);
}

#[test]
fn txt_intent_from_wire_type() {
    let query = build_query("foo.example.", Rtype::Txt);
    let q = classify(&query, &tld_set(&["example"])).unwrap();
    assert_eq!(q.qtype, ExtendedRtype::Txt);
}

#[test]
fn other_intent_keeps_wire_type() {
    let query = build_query("foo.example.", Rtype::Mx);
    let q = classify(&query, &tld_set(&["example"])).unwrap();
    assert_eq!(q.qtype, ExtendedRtype::Other(15));
}

#[test]
fn two_questions_are_rejected() {
    let mut mb = MessageBuilder::new_vec();
    mb.header_mut().set_id(4711);
    let mut qb = mb.question();
    qb.push((&Dname::<Vec<u8>>::vec_from_str("foo.example.").unwrap(), Rtype::A))
        .unwrap();
    qb.push((&Dname::<Vec<u8>>::vec_from_str("bar.example.").unwrap(), Rtype::A))
        .unwrap();
    let query = qb.finish();
    let r = classify(&query, &tld_set(&["example"]));
    assert_eq!(r.unwrap_err(), ClassifyError::MultipleQuestions);
}

#[test]
fn root_only_name_is_rejected() {
    let mut mb = MessageBuilder::new_vec();
    let mut qb = mb.question();
    qb.push((&Dname::<Vec<u8>>::root_vec(), Rtype::A)).unwrap();
    let query = qb.finish();
    let r = classify(&query, &tld_set(&["example"]));
    assert_eq!(r.unwrap_err(), ClassifyError::MissingTld);
}

#[test]
fn domain_dot_tld_reconstructs_name() {
    let query = build_query("a.b.c.example.", Rtype::A);
    let q = classify(&query, &tld_set(&["example"])).unwrap();
    assert_eq!(q.domain, "a.b.c");
    assert_eq!(q.tld, "example");
    assert_eq!(format!("{}.{}", q.domain, q.tld), "a.b.c.example");
    assert_eq!(format!("{}.{}", q.domain, q.tld), q.fulldomain);
}

#[test]
fn reconstruction_drops_control_label() {
    let query = build_query("_dnslink.a.b.example.", Rtype::A);
    let q = classify(&query, &tld_set(&["example"])).unwrap();
    assert_eq!(q.fulldomain, "_dnslink.a.b.example");
    assert_eq!(format!("{}.{}", q.domain, q.tld), "a.b.example");
}

#[test]
fn single_label_name_has_empty_domain() {
    let query = build_query("example.", Rtype::A);
    let q = classify(&query, &tld_set(&["example"])).unwrap();
    assert_eq!(q.domain, "");
    assert_eq!(q.tld, "example");
    assert!(q.forward);
}
