//! The query classifier: decomposes a decoded DNS question into its
//! forwarding eligibility, full domain, domain/TLD split, and record-type
//! intent.

use vstd::prelude::*;
use vstd::string::StringExecFns;
use crate::wire::decode_sole_question;
use crate::wire::decoded_question;

verus! {

/// Wire code of the A record type.
pub const RTYPE_A: u16 = 1;

/// Wire code of the TXT record type.
pub const RTYPE_TXT: u16 = 16;

/// The record-type intent of a question. `DNSLink` is not a wire type: it
/// is inferred from the reserved first label of the queried name.
#[derive(Clone, Copy, Debug, PartialEq, Eq, Structural)]
pub enum ExtendedRtype {
    A,
    Txt,
    DNSLink,
    Other(u16),
}

/// Why classification rejected a query.
#[derive(Clone, Copy, Debug, PartialEq, Eq, Structural)]
pub enum ClassifyError {
    /// The message does not carry exactly one question.
    MultipleQuestions,
    /// After dropping the root and control labels no label is left.
    MissingTld,
}

/// A classified question, created per query and destroyed with its
/// response.
#[derive(Debug)]
pub struct DnsQuestion {
    /// True iff the TLD is in the configured set the oracle owns.
    pub forward: bool,
    /// The full queried name in display form, control label included.
    pub fulldomain: String,
    /// All labels except the TLD, the root and the control label, joined
    /// with dots.
    pub domain: String,
    /// The rightmost non-root, non-control label.
    pub tld: String,
    /// The resolved record-type intent.
    pub qtype: ExtendedRtype,
    /// The raw query bytes, echoed into the response.
    pub msg: Vec<u8>,
}

/// The reserved first label that forces DNSLink intent.
pub open spec fn control_text() -> Seq<char> {
    "_dnslink"@
}

/// A label kept in the domain/TLD split: neither the empty root label nor
/// the control label.
pub open spec fn is_data_label(l: Seq<char>) -> bool {
    l.len() > 0 && l != control_text()
}

/// The labels of a name that make up the domain/TLD split, in order.
pub open spec fn data_labels(ls: Seq<Seq<char>>) -> Seq<Seq<char>>
    decreases ls.len(),
{
    if ls.len() == 0 {
        Seq::empty()
    } else {
        let rest = data_labels(ls.drop_last());
        if is_data_label(ls.last()) {
            rest.push(ls.last())
        } else {
            rest
        }
    }
}

/// The labels shown in the textual form of a name: all but the empty root
/// label.
pub open spec fn display_labels(ls: Seq<Seq<char>>) -> Seq<Seq<char>>
    decreases ls.len(),
{
    if ls.len() == 0 {
        Seq::empty()
    } else {
        let rest = display_labels(ls.drop_last());
        if ls.last().len() > 0 {
            rest.push(ls.last())
        } else {
            rest
        }
    }
}

/// Labels joined with dots.
pub open spec fn join_dots(ls: Seq<Seq<char>>) -> Seq<char>
    decreases ls.len(),
{
    if ls.len() == 0 {
        Seq::empty()
    } else if ls.len() == 1 {
        ls[0]
    } else {
        join_dots(ls.drop_last()) + "."@ + ls.last()
    }
}

/// The record-type intent: the control label wins over the wire type.
pub open spec fn intent_of(ls: Seq<Seq<char>>, qtype: u16) -> ExtendedRtype {
    if ls.len() > 0 && ls[0] == control_text() {
        ExtendedRtype::DNSLink
    } else if qtype == RTYPE_A {
        ExtendedRtype::A
    } else if qtype == RTYPE_TXT {
        ExtendedRtype::Txt
    } else {
        ExtendedRtype::Other(qtype)
    }
}

/// The views of a sequence of strings.
pub open spec fn seq_views(v: Seq<String>) -> Seq<Seq<char>> {
    v.map_values(|s: String| s@)
}

/// Law: joining a question's domain and TLD with a dot reconstructs the
/// queried name with the root and any control labels removed. It takes at
/// least two data labels: with a single one the domain part is empty and
/// the joined form would start with a spurious dot.
pub proof fn lemma_domain_dot_tld_reconstructs(ls: Seq<Seq<char>>)
    requires
        data_labels(ls).len() >= 2,
    ensures
        join_dots(data_labels(ls).drop_last()) + "."@ + data_labels(ls).last() == join_dots(
            data_labels(ls),
        ),
{
}

/// When no label of a name is the control label, the name's textual form
/// keeps exactly the data labels, so the reconstruction law above speaks
/// of the full domain itself.
pub proof fn lemma_display_is_data_without_control(ls: Seq<Seq<char>>)
    requires
        forall|j: int| 0 <= j < ls.len() ==> ls[j] != control_text(),
    ensures
        display_labels(ls) == data_labels(ls),
    decreases ls.len(),
{
    if ls.len() > 0 {
        assert(forall|j: int|
            0 <= j < ls.drop_last().len() ==> ls.drop_last()[j] == ls[j]);
        lemma_display_is_data_without_control(ls.drop_last());
        assert(ls.last() == ls[ls.len() - 1]);
    }
}

/// A byte-for-byte copy of `v`.
fn copy_bytes(v: &Vec<u8>) -> (r: Vec<u8>)
    ensures
        r@ == v@,
{
    let mut out: Vec<u8> = Vec::new();
    let mut i: usize = 0;
    while i < v.len()
        invariant
            i <= v@.len(),
            out@ == v@.take(i as int),
        decreases v@.len() - i,
    {
        out.push(v[i]);
        proof {
            assert(out@ =~= v@.take(i as int + 1));
        }
        i = i + 1;
    }
    proof {
        assert(v@.take(v@.len() as int) =~= v@);
    }
    out
}

/// Whether `s` occurs in `v`.
fn contains_string(v: &Vec<String>, s: &String) -> (b: bool)
    ensures
        b == seq_views(v@).contains(s@),
{
    let mut i: usize = 0;
    while i < v.len()
        invariant
            i <= v@.len(),
            forall|j: int| 0 <= j < i ==> seq_views(v@)[j] != s@,
        decreases v@.len() - i,
    {
        if v[i].eq(s) {
            proof {
                assert(seq_views(v@)[i as int] == s@);
            }
            return true;
        }
        i = i + 1;
    }
    proof {
        assert forall|j: int| 0 <= j < seq_views(v@).len() implies seq_views(v@)[j] != s@ by {}
    }
    false
}

/// The labels of `v` joined with dots.
fn join_labels(v: &Vec<String>) -> (r: String)
    ensures
        r@ == join_dots(seq_views(v@)),
{
    let mut out: String = String::new();
    let mut i: usize = 0;
    while i < v.len()
        invariant
            i <= v@.len(),
            out@ == join_dots(seq_views(v@).take(i as int)),
        decreases v@.len() - i,
    {
        if i > 0 {
            out.append(".");
        }
        out.append(v[i].as_str());
        proof {
            assert(seq_views(v@).take(i as int + 1).drop_last() =~= seq_views(v@).take(i as int));
            assert(seq_views(v@).take(i as int + 1).last() == v@[i as int]@);
        }
        i = i + 1;
    }
    proof {
        assert(seq_views(v@).take(v@.len() as int) =~= seq_views(v@));
    }
    out
}

/// Classifies a raw DNS query against the configured TLD set: decodes the
/// sole question, resolves the record-type intent, splits the name into
/// domain and TLD, and decides forwarding eligibility. Rejects messages
/// without exactly one question and names without a data label; accepts
/// everything else.
pub fn classify(query: &Vec<u8>, tlds: &Vec<String>) -> (r: Result<DnsQuestion, ClassifyError>)
    ensures
        decoded_question(query@) is None ==> r == Err::<DnsQuestion, ClassifyError>(
            ClassifyError::MultipleQuestions,
        ),
        decoded_question(query@) matches Some(d) ==> {
            &&& (data_labels(d.0).len() == 0 ==> r == Err::<DnsQuestion, ClassifyError>(
                ClassifyError::MissingTld,
            ))
            &&& (data_labels(d.0).len() > 0 ==> (r matches Ok(q) && {
                &&& q.tld@ == data_labels(d.0).last()
                &&& q.domain@ == join_dots(data_labels(d.0).drop_last())
                &&& q.fulldomain@ == join_dots(display_labels(d.0))
                &&& q.qtype == intent_of(d.0, d.1)
                &&& (q.forward <==> seq_views(tlds@).contains(data_labels(d.0).last()))
                &&& q.msg@ == query@
            }))
        },
        // The TLD set alone decides forwarding eligibility.
        r matches Ok(q) ==> (q.forward <==> seq_views(tlds@).contains(q.tld@)),
        // The control label forces DNSLink intent whatever the wire type.
        r matches Ok(q) ==> (decoded_question(query@) matches Some(d) ==> ((d.0.len() > 0 && d.0[0]
            == control_text()) ==> q.qtype == ExtendedRtype::DNSLink)),
{
    let decoded = decode_sole_question(query);
    let (labels, wire_type) = match decoded {
        Some(p) => p,
        None => {
            return Err(ClassifyError::MultipleQuestions);
        },
    };
    let ctrl: String = String::from_str("_dnslink");
    let ghost lsv: Seq<Seq<char>> = seq_views(labels@);
    let qtype: ExtendedRtype = if labels.len() > 0 && labels[0].eq(&ctrl) {
        proof {
            assert(lsv[0] == labels@[0]@);
        }
        ExtendedRtype::DNSLink
    } else if wire_type == RTYPE_A {
        ExtendedRtype::A
    } else if wire_type == RTYPE_TXT {
        ExtendedRtype::Txt
    } else {
        ExtendedRtype::Other(wire_type)
    };
    proof {
        assert(labels@.len() > 0 ==> lsv[0] == labels@[0]@);
        assert(qtype == intent_of(lsv, wire_type));
    }
    let mut disp: Vec<String> = Vec::new();
    let mut kept: Vec<String> = Vec::new();
    let mut i: usize = 0;
    while i < labels.len()
        invariant
            i <= labels@.len(),
            lsv == seq_views(labels@),
            ctrl@ == control_text(),
            seq_views(disp@) == display_labels(lsv.take(i as int)),
            seq_views(kept@) == data_labels(lsv.take(i as int)),
        decreases labels@.len() - i,
    {
        proof {
            assert(lsv.take(i as int + 1).drop_last() =~= lsv.take(i as int));
            assert(lsv.take(i as int + 1).last() == labels@[i as int]@);
        }
        let label = &labels[i];
        if !label.as_str().is_empty() {
            disp.push(label.clone());
            proof {
                assert(seq_views(disp@) =~= display_labels(lsv.take(i as int + 1)));
            }
            if !label.eq(&ctrl) {
                kept.push(label.clone());
            }
        }
        proof {
            assert(seq_views(disp@) =~= display_labels(lsv.take(i as int + 1)));
            assert(seq_views(kept@) =~= data_labels(lsv.take(i as int + 1)));
        }
        i = i + 1;
    }
    proof {
        assert(lsv.take(labels@.len() as int) =~= lsv);
    }
    let tld: String = match kept.pop() {
        Some(t) => t,
        None => {
            return Err(ClassifyError::MissingTld);
        },
    };
    proof {
        assert(seq_views(kept@) =~= data_labels(lsv).drop_last());
        assert(tld@ == data_labels(lsv).last());
    }
    let domain = join_labels(&kept);
    let fulldomain = join_labels(&disp);
    let forward = contains_string(tlds, &tld);
    let msg = copy_bytes(query);
    Ok(DnsQuestion { forward: forward, fulldomain: fulldomain, domain: domain, tld: tld, qtype: qtype, msg: msg })
}

} // verus!
