//! Parsing of dotted-quad IPv4 address text.
//!
//! An oracle answer destined for an A record must be the canonical decimal
//! text of an IPv4 address: four octets, each written without leading
//! zeros, separated by dots. `parse_ipv4` accepts exactly those strings.

use vstd::prelude::*;
use vstd::string::StrSliceExecFns;
use vstd::arithmetic::div_mod::lemma_fundamental_div_mod;
use vstd::arithmetic::div_mod::lemma_fundamental_div_mod_converse;

verus! {

/// A decimal digit character.
pub open spec fn is_digit(c: char) -> bool {
    c == '0' || c == '1' || c == '2' || c == '3' || c == '4' || c == '5' || c == '6'
        || c == '7' || c == '8' || c == '9'
}

/// The value of a decimal digit character.
pub open spec fn digit_val(c: char) -> int {
    if c == '0' {
        0
    } else if c == '1' {
        1
    } else if c == '2' {
        2
    } else if c == '3' {
        3
    } else if c == '4' {
        4
    } else if c == '5' {
        5
    } else if c == '6' {
        6
    } else if c == '7' {
        7
    } else if c == '8' {
        8
    } else {
        9
    }
}

/// The decimal digit character for a value below ten.
pub open spec fn digit_char(n: int) -> char {
    if n == 0 {
        '0'
    } else if n == 1 {
        '1'
    } else if n == 2 {
        '2'
    } else if n == 3 {
        '3'
    } else if n == 4 {
        '4'
    } else if n == 5 {
        '5'
    } else if n == 6 {
        '6'
    } else if n == 7 {
        '7'
    } else if n == 8 {
        '8'
    } else {
        '9'
    }
}

/// The canonical decimal text of an octet: one to three digits, no
/// leading zeros.
pub open spec fn dec_str(v: u8) -> Seq<char> {
    if v < 10 {
        seq![digit_char(v as int)]
    } else if v < 100 {
        seq![digit_char(v as int / 10), digit_char(v as int % 10)]
    } else {
        seq![
            digit_char(v as int / 100),
            digit_char((v as int / 10) % 10),
            digit_char(v as int % 10),
        ]
    }
}

/// The canonical dotted-quad text of an IPv4 address.
pub open spec fn ipv4_text(a: u8, b: u8, c: u8, d: u8) -> Seq<char> {
    dec_str(a) + "."@ + dec_str(b) + "."@ + dec_str(c) + "."@ + dec_str(d)
}

/// The address whose canonical text `s` is, if it is one.
pub open spec fn spec_ipv4_of(s: Seq<char>) -> Option<(u8, u8, u8, u8)> {
    if exists|a: u8, b: u8, c: u8, d: u8| s == ipv4_text(a, b, c, d) {
        Some(choose|a: u8, b: u8, c: u8, d: u8| s == ipv4_text(a, b, c, d))
    } else {
        None
    }
}

/// The canonical text of `v` occurs in `s` at `i` and is followed by a
/// non-digit or by the end of `s`: the one reading a greedy decimal scan
/// starting at `i` can produce.
pub open spec fn octet_at(s: Seq<char>, i: int, v: u8) -> bool {
    &&& 0 <= i
    &&& i + dec_str(v).len() <= s.len()
    &&& s.subrange(i, i + dec_str(v).len()) == dec_str(v)
    &&& (i + dec_str(v).len() == s.len() || !is_digit(s[i + dec_str(v).len()]))
}

pub proof fn lemma_digit_facts()
    ensures
        forall|k: int| 0 <= k < 10 ==> is_digit(#[trigger] digit_char(k)),
        forall|k: int| 0 <= k < 10 ==> digit_val(#[trigger] digit_char(k)) == k,
        forall|c: char| #[trigger] is_digit(c) ==> digit_char(digit_val(c)) == c,
        forall|c: char| #[trigger] is_digit(c) ==> 0 <= digit_val(c) < 10,
{
}

pub proof fn lemma_dec_str_facts(v: u8)
    ensures
        1 <= dec_str(v).len() <= 3,
        forall|j: int| 0 <= j < dec_str(v).len() ==> is_digit(#[trigger] dec_str(v)[j]),
        v >= 10 ==> dec_str(v)[0] != '0',
        (dec_str(v).len() == 1) == (v < 10),
        (dec_str(v).len() == 2) == (10 <= v < 100),
        (dec_str(v).len() == 3) == (v >= 100),
{
    lemma_digit_facts();
    if v < 10 {
    } else if v < 100 {
        assert(1 <= v as int / 10 < 10);
        assert(0 <= v as int % 10 < 10);
    } else {
        assert(1 <= v as int / 100 < 10);
        assert(0 <= (v as int / 10) % 10 < 10);
        assert(0 <= v as int % 10 < 10);
    }
}

/// The value an octet's canonical text denotes, digit by digit.
pub proof fn lemma_dec_str_value(v: u8)
    ensures
        dec_str(v).len() == 1 ==> v as int == digit_val(dec_str(v)[0]),
        dec_str(v).len() == 2 ==> v as int == 10 * digit_val(dec_str(v)[0]) + digit_val(
            dec_str(v)[1],
        ),
        dec_str(v).len() == 3 ==> v as int == 100 * digit_val(dec_str(v)[0]) + 10 * digit_val(
            dec_str(v)[1],
        ) + digit_val(dec_str(v)[2]),
{
    lemma_digit_facts();
    lemma_dec_str_facts(v);
    if v < 10 {
    } else if v < 100 {
        lemma_fundamental_div_mod(v as int, 10);
    } else {
        lemma_fundamental_div_mod(v as int, 10);
        lemma_fundamental_div_mod(v as int / 10, 10);
        assert(v as int / 10 / 10 == v as int / 100) by {
            lemma_fundamental_div_mod(v as int, 100);
            lemma_fundamental_div_mod_converse(
                v as int / 10,
                10,
                v as int / 100,
                v as int / 10 - 10 * (v as int / 100),
            );
        }
    }
}

pub proof fn lemma_dec_str_of_1digit(k0: int, v: u8)
    requires
        0 <= k0 < 10,
        v as int == k0,
    ensures
        dec_str(v) == seq![digit_char(k0)],
{
}

pub proof fn lemma_dec_str_of_2digits(k0: int, k1: int, v: u8)
    requires
        1 <= k0 < 10,
        0 <= k1 < 10,
        v as int == 10 * k0 + k1,
    ensures
        dec_str(v) == seq![digit_char(k0), digit_char(k1)],
{
    lemma_fundamental_div_mod_converse(v as int, 10, k0, k1);
}

pub proof fn lemma_dec_str_of_3digits(k0: int, k1: int, k2: int, v: u8)
    requires
        1 <= k0 < 10,
        0 <= k1 < 10,
        0 <= k2 < 10,
        v as int == 100 * k0 + 10 * k1 + k2,
    ensures
        dec_str(v) == seq![digit_char(k0), digit_char(k1), digit_char(k2)],
{
    lemma_fundamental_div_mod_converse(v as int, 100, k0, 10 * k1 + k2);
    lemma_fundamental_div_mod_converse(v as int, 10, 10 * k0 + k1, k2);
    lemma_fundamental_div_mod_converse(10 * k0 + k1, 10, k0, k1);
}

/// A greedy decimal scan at one position can read at most one octet.
pub proof fn lemma_octet_at_unique(s: Seq<char>, i: int, v1: u8, v2: u8)
    requires
        octet_at(s, i, v1),
        octet_at(s, i, v2),
    ensures
        v1 == v2,
{
    lemma_digit_facts();
    lemma_dec_str_facts(v1);
    lemma_dec_str_facts(v2);
    let d1 = dec_str(v1);
    let d2 = dec_str(v2);
    if d1.len() < d2.len() {
        assert(s[i + d1.len()] == s.subrange(i, i + d2.len())[d1.len() as int]);
        assert(is_digit(s[i + d1.len()]));
        assert(false);
    } else if d2.len() < d1.len() {
        assert(s[i + d2.len()] == s.subrange(i, i + d1.len())[d2.len() as int]);
        assert(is_digit(s[i + d2.len()]));
        assert(false);
    } else {
        assert(d1 =~= d2) by {
            assert(forall|j: int|
                0 <= j < d1.len() ==> d1[j] == s.subrange(i, i + d1.len())[j] && d2[j]
                    == s.subrange(i, i + d2.len())[j]);
        }
        lemma_dec_str_value(v1);
        lemma_dec_str_value(v2);
    }
}

/// The digit value of a character, or nothing for a non-digit.
pub fn digit_of(c: char) -> (r: Option<u8>)
    ensures
        r matches Some(d) ==> is_digit(c) && d as int == digit_val(c) && d < 10,
        r is None ==> !is_digit(c),
{
    match c {
        '0' => Some(0),
        '1' => Some(1),
        '2' => Some(2),
        '3' => Some(3),
        '4' => Some(4),
        '5' => Some(5),
        '6' => Some(6),
        '7' => Some(7),
        '8' => Some(8),
        '9' => Some(9),
        _ => None,
    }
}

/// Greedily reads one canonical octet starting at `start`: its value and
/// the position just past it, or nothing if no octet can be read there.
pub fn scan_octet(s: &str, start: usize) -> (r: Option<(u8, usize)>)
    requires
        start <= s@.len(),
    ensures
        match r {
            Some(p) => octet_at(s@, start as int, p.0) && p.1 == start + dec_str(p.0).len(),
            None => forall|v: u8| !octet_at(s@, start as int, v),
        },
{
    proof {
        lemma_digit_facts();
    }
    let n = s.unicode_len();
    if start >= n {
        proof {
            assert forall|v: u8| !octet_at(s@, start as int, v) by {
                lemma_dec_str_facts(v);
            }
        }
        return None;
    }
    let c0 = s.get_char(start);
    let d0 = match digit_of(c0) {
        Some(d) => d,
        None => {
            proof {
                assert forall|v: u8| !octet_at(s@, start as int, v) by {
                    lemma_dec_str_facts(v);
                    if octet_at(s@, start as int, v) {
                        assert(s@[start as int] == s@.subrange(
                            start as int,
                            start + dec_str(v).len(),
                        )[0]);
                        assert(is_digit(c0));
                    }
                }
            }
            return None;
        },
    };
    if d0 == 0 {
        if start + 1 < n {
            let c1 = s.get_char(start + 1);
            if digit_of(c1).is_some() {
                proof {
                    assert forall|v: u8| !octet_at(s@, start as int, v) by {
                        lemma_dec_str_facts(v);
                        if octet_at(s@, start as int, v) {
                            assert(s@[start as int] == s@.subrange(
                                start as int,
                                start + dec_str(v).len(),
                            )[0]);
                            if dec_str(v).len() == 1 {
                                assert(is_digit(s@[start as int + 1]));
                            } else {
                                assert(dec_str(v)[0] != '0');
                                assert(c0 == '0');
                            }
                        }
                    }
                }
                return None;
            }
        }
        proof {
            lemma_dec_str_of_1digit(0, 0u8);
            assert(c0 == digit_char(0));
            assert(s@.subrange(start as int, start as int + 1) =~= seq![c0]);
        }
        return Some((0, start + 1));
    }
    let c1d: Option<u8> = if start + 1 < n {
        digit_of(s.get_char(start + 1))
    } else {
        None
    };
    match c1d {
        None => {
            proof {
                lemma_dec_str_of_1digit(digit_val(c0), d0);
                assert(c0 == digit_char(digit_val(c0)));
                assert(s@.subrange(start as int, start as int + 1) =~= seq![c0]);
            }
            Some((d0, start + 1))
        },
        Some(d1) => {
            let c2d: Option<u8> = if start + 2 < n {
                digit_of(s.get_char(start + 2))
            } else {
                None
            };
            match c2d {
                None => {
                    let v: u8 = d0 * 10 + d1;
                    proof {
                        lemma_dec_str_of_2digits(digit_val(c0), digit_val(s@[start + 1]), v);
                        assert(c0 == digit_char(digit_val(c0)));
                        assert(s@[start + 1] == digit_char(digit_val(s@[start + 1])));
                        assert(s@.subrange(start as int, start as int + 2) =~= seq![
                            c0,
                            s@[start + 1],
                        ]);
                    }
                    Some((v, start + 2))
                },
                Some(d2) => {
                    if start + 3 < n && digit_of(s.get_char(start + 3)).is_some() {
                        proof {
                            assert forall|v: u8| !octet_at(s@, start as int, v) by {
                                lemma_dec_str_facts(v);
                                if octet_at(s@, start as int, v) {
                                    assert(is_digit(s@[start as int + 1]));
                                    assert(is_digit(s@[start as int + 2]));
                                    assert(is_digit(s@[start as int + 3]));
                                }
                            }
                        }
                        return None;
                    }
                    let big: u16 = d0 as u16 * 100 + d1 as u16 * 10 + d2 as u16;
                    if big > 255 {
                        proof {
                            assert forall|v: u8| !octet_at(s@, start as int, v) by {
                                lemma_dec_str_facts(v);
                                if octet_at(s@, start as int, v) {
                                    if dec_str(v).len() < 3 {
                                        assert(is_digit(s@[start as int + 1]));
                                        assert(is_digit(s@[start as int + 2]));
                                    } else {
                                        let sub = s@.subrange(start as int, start as int + 3);
                                        assert(dec_str(v)[0] == sub[0] && dec_str(v)[1] == sub[1]
                                            && dec_str(v)[2] == sub[2]);
                                        assert(sub[0] == c0 && sub[1] == s@[start + 1] && sub[2]
                                            == s@[start + 2]);
                                        lemma_dec_str_value(v);
                                        assert(v as int == big as int);
                                    }
                                }
                            }
                        }
                        return None;
                    }
                    let v: u8 = big as u8;
                    proof {
                        lemma_dec_str_of_3digits(
                            digit_val(c0),
                            digit_val(s@[start + 1]),
                            digit_val(s@[start + 2]),
                            v,
                        );
                        assert(c0 == digit_char(digit_val(c0)));
                        assert(s@[start + 1] == digit_char(digit_val(s@[start + 1])));
                        assert(s@[start + 2] == digit_char(digit_val(s@[start + 2])));
                        assert(s@.subrange(start as int, start as int + 3) =~= seq![
                            c0,
                            s@[start + 1],
                            s@[start + 2],
                        ]);
                    }
                    Some((v, start + 3))
                },
            }
        },
    }
}

/// How a canonical dotted quad decomposes: each octet's text sits where a
/// greedy scan finds it, with a dot after each of the first three.
pub proof fn lemma_text_structure(s: Seq<char>, a: u8, b: u8, c: u8, d: u8)
    requires
        s == ipv4_text(a, b, c, d),
    ensures
        s.len() == dec_str(a).len() + dec_str(b).len() + dec_str(c).len() + dec_str(d).len() + 3,
        octet_at(s, 0, a),
        s[dec_str(a).len() as int] == '.',
        octet_at(s, dec_str(a).len() + 1 as int, b),
        s[dec_str(a).len() + dec_str(b).len() + 1 as int] == '.',
        octet_at(s, dec_str(a).len() + dec_str(b).len() + 2 as int, c),
        s[dec_str(a).len() + dec_str(b).len() + dec_str(c).len() + 2 as int] == '.',
        octet_at(s, dec_str(a).len() + dec_str(b).len() + dec_str(c).len() + 3 as int, d),
{
    reveal_strlit(".");
    lemma_digit_facts();
    lemma_dec_str_facts(a);
    lemma_dec_str_facts(b);
    lemma_dec_str_facts(c);
    lemma_dec_str_facts(d);
    let la = dec_str(a).len() as int;
    let lb = dec_str(b).len() as int;
    let lc = dec_str(c).len() as int;
    let ld = dec_str(d).len() as int;
    assert(!is_digit('.'));
    assert(s.subrange(0, la) =~= dec_str(a));
    assert(s.subrange(la + 1, la + 1 + lb) =~= dec_str(b));
    assert(s.subrange(la + lb + 2, la + lb + 2 + lc) =~= dec_str(c));
    assert(s.subrange(la + lb + lc + 3, la + lb + lc + 3 + ld) =~= dec_str(d));
}

/// Distinct addresses have distinct canonical texts.
pub proof fn lemma_ipv4_text_injective(
    a1: u8,
    b1: u8,
    c1: u8,
    d1: u8,
    a2: u8,
    b2: u8,
    c2: u8,
    d2: u8,
)
    requires
        ipv4_text(a1, b1, c1, d1) == ipv4_text(a2, b2, c2, d2),
    ensures
        a1 == a2 && b1 == b2 && c1 == c2 && d1 == d2,
{
    let s = ipv4_text(a1, b1, c1, d1);
    lemma_text_structure(s, a1, b1, c1, d1);
    lemma_text_structure(s, a2, b2, c2, d2);
    lemma_octet_at_unique(s, 0, a1, a2);
    lemma_octet_at_unique(s, dec_str(a1).len() + 1 as int, b1, b2);
    lemma_octet_at_unique(s, dec_str(a1).len() + dec_str(b1).len() + 2 as int, c1, c2);
    lemma_octet_at_unique(s, dec_str(a1).len() + dec_str(b1).len() + dec_str(c1).len() + 3 as int, d1, d2);
}

/// Law: rendering an address in canonical dotted-quad form and reading it
/// back yields the same address.
pub proof fn lemma_ipv4_round_trip(a: u8, b: u8, c: u8, d: u8)
    ensures
        spec_ipv4_of(ipv4_text(a, b, c, d)) == Some((a, b, c, d)),
{
    let s = ipv4_text(a, b, c, d);
    assert(exists|a2: u8, b2: u8, c2: u8, d2: u8| s == ipv4_text(a2, b2, c2, d2)) by {
        assert(s == ipv4_text(a, b, c, d));
    }
    let q = choose|a2: u8, b2: u8, c2: u8, d2: u8| s == ipv4_text(a2, b2, c2, d2);
    lemma_ipv4_text_injective(q.0, q.1, q.2, q.3, a, b, c, d);
}

/// Parses the canonical dotted-quad text of an IPv4 address, and nothing
/// else: the result is the one address whose text `s` is, if such an
/// address exists.
#[verifier::rlimit(80)]
pub fn parse_ipv4(s: &str) -> (r: Option<(u8, u8, u8, u8)>)
    ensures
        r == spec_ipv4_of(s@),
        r matches Some(q) ==> s@ == ipv4_text(q.0, q.1, q.2, q.3),
        r is None ==> forall|a: u8, b: u8, c: u8, d: u8| s@ != ipv4_text(a, b, c, d),
{
    proof {
        reveal_strlit(".");
        lemma_digit_facts();
    }
    let n = s.unicode_len();
    let (a0, e1) = match scan_octet(s, 0) {
        Some(p) => p,
        None => {
            proof {
                assert forall|a: u8, b: u8, c: u8, d: u8| s@ != ipv4_text(a, b, c, d) by {
                    if s@ == ipv4_text(a, b, c, d) {
                        lemma_text_structure(s@, a, b, c, d);
                    }
                }
            }
            return None;
        },
    };
    if e1 >= n || s.get_char(e1) != '.' {
        proof {
            assert forall|a: u8, b: u8, c: u8, d: u8| s@ != ipv4_text(a, b, c, d) by {
                if s@ == ipv4_text(a, b, c, d) {
                    lemma_text_structure(s@, a, b, c, d);
                    lemma_octet_at_unique(s@, 0, a0, a);
                }
            }
        }
        return None;
    }
    let (b0, e2) = match scan_octet(s, e1 + 1) {
        Some(p) => p,
        None => {
            proof {
                assert forall|a: u8, b: u8, c: u8, d: u8| s@ != ipv4_text(a, b, c, d) by {
                    if s@ == ipv4_text(a, b, c, d) {
                        lemma_text_structure(s@, a, b, c, d);
                        lemma_octet_at_unique(s@, 0, a0, a);
                    }
                }
            }
            return None;
        },
    };
    if e2 >= n || s.get_char(e2) != '.' {
        proof {
            assert forall|a: u8, b: u8, c: u8, d: u8| s@ != ipv4_text(a, b, c, d) by {
                if s@ == ipv4_text(a, b, c, d) {
                    lemma_text_structure(s@, a, b, c, d);
                    lemma_octet_at_unique(s@, 0, a0, a);
                    lemma_octet_at_unique(s@, e1 + 1, b0, b);
                }
            }
        }
        return None;
    }
    let (c0, e3) = match scan_octet(s, e2 + 1) {
        Some(p) => p,
        None => {
            proof {
                assert forall|a: u8, b: u8, c: u8, d: u8| s@ != ipv4_text(a, b, c, d) by {
                    if s@ == ipv4_text(a, b, c, d) {
                        lemma_text_structure(s@, a, b, c, d);
                        lemma_octet_at_unique(s@, 0, a0, a);
                        lemma_octet_at_unique(s@, e1 + 1, b0, b);
                    }
                }
            }
            return None;
        },
    };
    if e3 >= n || s.get_char(e3) != '.' {
        proof {
            assert forall|a: u8, b: u8, c: u8, d: u8| s@ != ipv4_text(a, b, c, d) by {
                if s@ == ipv4_text(a, b, c, d) {
                    lemma_text_structure(s@, a, b, c, d);
                    lemma_octet_at_unique(s@, 0, a0, a);
                    lemma_octet_at_unique(s@, e1 + 1, b0, b);
                    lemma_octet_at_unique(s@, e2 + 1, c0, c);
                }
            }
        }
        return None;
    }
    let (d0, e4) = match scan_octet(s, e3 + 1) {
        Some(p) => p,
        None => {
            proof {
                assert forall|a: u8, b: u8, c: u8, d: u8| s@ != ipv4_text(a, b, c, d) by {
                    if s@ == ipv4_text(a, b, c, d) {
                        lemma_text_structure(s@, a, b, c, d);
                        lemma_octet_at_unique(s@, 0, a0, a);
                        lemma_octet_at_unique(s@, e1 + 1, b0, b);
                        lemma_octet_at_unique(s@, e2 + 1, c0, c);
                    }
                }
            }
            return None;
        },
    };
    if e4 < n {
        proof {
            assert forall|a: u8, b: u8, c: u8, d: u8| s@ != ipv4_text(a, b, c, d) by {
                if s@ == ipv4_text(a, b, c, d) {
                    lemma_text_structure(s@, a, b, c, d);
                    lemma_octet_at_unique(s@, 0, a0, a);
                    lemma_octet_at_unique(s@, e1 + 1, b0, b);
                    lemma_octet_at_unique(s@, e2 + 1, c0, c);
                    lemma_octet_at_unique(s@, e3 + 1, d0, d);
                }
            }
        }
        return None;
    }
    proof {
        assert(s@ =~= ipv4_text(a0, b0, c0, d0)) by {
            assert(forall|j: int|
                0 <= j < dec_str(a0).len() ==> s@[j] == #[trigger] dec_str(a0)[j] && s@[j]
                    == s@.subrange(0, e1 as int)[j]);
            assert(forall|j: int|
                0 <= j < dec_str(b0).len() ==> s@[e1 + 1 + j] == #[trigger] dec_str(b0)[j] && s@[e1
                    + 1 + j] == s@.subrange(e1 + 1, e2 as int)[j]);
            assert(forall|j: int|
                0 <= j < dec_str(c0).len() ==> s@[e2 + 1 + j] == #[trigger] dec_str(c0)[j] && s@[e2
                    + 1 + j] == s@.subrange(e2 + 1, e3 as int)[j]);
            assert(forall|j: int|
                0 <= j < dec_str(d0).len() ==> s@[e3 + 1 + j] == #[trigger] dec_str(d0)[j] && s@[e3
                    + 1 + j] == s@.subrange(e3 + 1, e4 as int)[j]);
        }
        let q = choose|a: u8, b: u8, c: u8, d: u8| s@ == ipv4_text(a, b, c, d);
        lemma_ipv4_text_injective(q.0, q.1, q.2, q.3, a0, b0, c0, d0);
    }
    Some((a0, b0, c0, d0))
}

} // verus!

