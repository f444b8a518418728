//! Dotted-decimal IPv4 addresses: the accepted text form, parsing, and the address
//! classes that the route scan filters out.
use vstd::prelude::*;

use crate::text::{split_on, split_chars, nat_text};

verus! {

/// An IPv4 address, by its four octets, most significant first.
#[derive(Debug, Clone, Copy, PartialEq, Eq, Structural)]
pub struct Ipv4 {
    pub a: u8,
    pub b: u8,
    pub c: u8,
    pub d: u8,
}

/// Whether a character is an ASCII decimal digit.
pub open spec fn is_digit(c: char) -> bool {
    '0' <= c <= '9'
}

/// The value of an ASCII decimal digit.
pub open spec fn digit_value(c: char) -> nat {
    ((c as u32) - 48) as nat
}

/// The value of a run of decimal digits, read most significant first.
pub open spec fn digits_value(s: Seq<char>) -> nat
    decreases s.len(),
{
    if s.len() == 0 {
        0
    } else {
        digits_value(s.drop_last()) * 10 + digit_value(s.last())
    }
}

/// One field of a dotted-decimal address: one to three ASCII digits, no leading zero
/// unless the field is `0` itself, and a value of at most 255.
pub open spec fn is_octet_text(p: Seq<char>) -> bool {
    &&& 1 <= p.len() <= 3
    &&& forall|i: int| 0 <= i < p.len() ==> is_digit(#[trigger] p[i])
    &&& p.len() > 1 ==> p[0] != '0'
    &&& digits_value(p) <= 255
}

/// The text form that `Ipv4Addr::from_str` accepts: four octet fields separated by dots,
/// with nothing before, between or after them.
pub open spec fn is_ipv4_text(s: Seq<char>) -> bool {
    let parts = split_on(s, '.');
    &&& parts.len() == 4
    &&& forall|i: int| 0 <= i < 4 ==> is_octet_text(#[trigger] parts[i])
}

/// The address that a dotted-decimal text denotes.
pub open spec fn ipv4_of_text(s: Seq<char>) -> Ipv4 {
    let parts = split_on(s, '.');
    Ipv4 {
        a: digits_value(parts[0]) as u8,
        b: digits_value(parts[1]) as u8,
        c: digits_value(parts[2]) as u8,
        d: digits_value(parts[3]) as u8,
    }
}

/// The parse of a text: the address it denotes, if it is a dotted-decimal address.
pub open spec fn parse_ipv4_spec(s: Seq<char>) -> Option<Ipv4> {
    if is_ipv4_text(s) {
        Some(ipv4_of_text(s))
    } else {
        None
    }
}

/// The canonical dotted-decimal text of an address.
pub open spec fn ipv4_text(ip: Ipv4) -> Seq<char> {
    nat_text(ip.a as nat) + seq!['.'] + nat_text(ip.b as nat) + seq!['.'] + nat_text(
        ip.c as nat,
    ) + seq!['.'] + nat_text(ip.d as nat)
}

impl Ipv4 {
    /// The address 127.0.0.1.
    pub open spec fn localhost() -> Ipv4 {
        Ipv4 { a: 127, b: 0, c: 0, d: 1 }
    }

    /// 0.0.0.0.
    pub open spec fn spec_is_unspecified(self) -> bool {
        self.a == 0 && self.b == 0 && self.c == 0 && self.d == 0
    }

    /// The loopback block 127.0.0.0/8.
    pub open spec fn spec_is_loopback(self) -> bool {
        self.a == 127
    }

    /// The multicast block 224.0.0.0/4.
    pub open spec fn spec_is_multicast(self) -> bool {
        224 <= self.a <= 239
    }

    /// Whether this is the unspecified address 0.0.0.0.
    pub fn is_unspecified(&self) -> (r: bool)
        ensures
            r == self.spec_is_unspecified(),
    {
        self.a == 0 && self.b == 0 && self.c == 0 && self.d == 0
    }

    /// Whether this address lies in 127.0.0.0/8.
    pub fn is_loopback(&self) -> (r: bool)
        ensures
            r == self.spec_is_loopback(),
    {
        self.a == 127
    }

    /// Whether this address lies in 224.0.0.0/4.
    pub fn is_multicast(&self) -> (r: bool)
        ensures
            r == self.spec_is_multicast(),
    {
        224 <= self.a && self.a <= 239
    }

    /// Whether this is 127.0.0.1.
    pub fn is_localhost(&self) -> (r: bool)
        ensures
            r == (*self == Ipv4::localhost()),
    {
        self.a == 127 && self.b == 0 && self.c == 0 && self.d == 1
    }

    /// Whether two addresses are the same.
    pub fn same(&self, other: &Ipv4) -> (r: bool)
        ensures
            r == (*self == *other),
    {
        self.a == other.a && self.b == other.b && self.c == other.c && self.d == other.d
    }
}

/// Parses one field of a dotted-decimal address.
pub fn parse_octet(p: &Vec<char>) -> (r: Option<u8>)
    ensures
        r is Some <==> is_octet_text(p@),
        r matches Some(v) ==> v as nat == digits_value(p@),
{
    let n = p.len();
    if n == 0 || n > 3 {
        return None;
    }
    if n > 1 && p[0] == '0' {
        return None;
    }
    let mut val: u32 = 0;
    assert(p@.take(0) =~= Seq::<char>::empty());
    for i in 0..n
        invariant
            n == p.len(),
            1 <= n <= 3,
            val as nat == digits_value(p@.take(i as int)),
            forall|j: int| 0 <= j < i ==> is_digit(#[trigger] p@[j]),
            i == 0 ==> val == 0,
            i <= 1 ==> val <= 9,
            i <= 2 ==> val <= 99,
            val <= 999,
    {
        let c = p[i];
        if !('0' <= c && c <= '9') {
            return None;
        }
        let d: u32 = (c as u32) - 48;
        assert(p@.take(i + 1).drop_last() =~= p@.take(i as int));
        val = val * 10 + d;
    }
    assert(p@.take(n as int) =~= p@);
    if val > 255 {
        None
    } else {
        Some(val as u8)
    }
}

/// Parses a dotted-decimal IPv4 address (the grammar of `Ipv4Addr::from_str`).
pub fn parse_ipv4(s: &Vec<char>) -> (r: Option<Ipv4>)
    ensures
        r == parse_ipv4_spec(s@),
{
    let parts = split_chars(s, '.');
    let ghost ps = parts@.map_values(|p: Vec<char>| p@);
    if parts.len() != 4 {
        return None;
    }
    assert(ps[0] == parts@[0]@ && ps[1] == parts@[1]@ && ps[2] == parts@[2]@ && ps[3]
        == parts@[3]@);
    let a = parse_octet(&parts[0]);
    let b = parse_octet(&parts[1]);
    let c = parse_octet(&parts[2]);
    let d = parse_octet(&parts[3]);
    match (a, b, c, d) {
        (Some(a), Some(b), Some(c), Some(d)) => {
            assert forall|i: int| 0 <= i < 4 implies is_octet_text(#[trigger] ps[i]) by {
                if i == 0 {
                } else if i == 1 {
                } else if i == 2 {
                } else {
                }
            }
            Some(Ipv4 { a, b, c, d })
        },
        _ => {
            proof {
                if is_ipv4_text(s@) {
                    assert(is_octet_text(ps[0]));
                    assert(is_octet_text(ps[1]));
                    assert(is_octet_text(ps[2]));
                    assert(is_octet_text(ps[3]));
                }
            }
            None
        },
    }
}

/// Parses the text of a string slice as a dotted-decimal IPv4 address.
pub fn parse_ipv4_str(s: &str) -> (r: Option<Ipv4>)
    ensures
        r == parse_ipv4_spec(s@),
{
    let v = crate::text::chars_of(s);
    parse_ipv4(&v)
}

} // verus!

verus! {

/// A dotted-decimal address is made of ASCII digits and dots only (so it holds nothing
/// a command line could read as anything but an address), and has at most 15 characters.
pub proof fn law_ipv4_text_is_plain(s: Seq<char>)
    requires
        is_ipv4_text(s),
    ensures
        forall|i: int| 0 <= i < s.len() ==> is_digit(#[trigger] s[i]) || s[i] == '.',
        s.len() <= 15,
{
    let parts = split_on(s, '.');
    crate::text::lemma_split_join(s, '.');
    assert(is_octet_text(parts[0]));
    assert(is_octet_text(parts[1]));
    assert(is_octet_text(parts[2]));
    assert(is_octet_text(parts[3]));
    let j2 = parts.drop_last().drop_last();
    let j1 = j2.drop_last();
    assert(j1.len() == 1);
    assert(crate::text::join_with(j1, '.') == parts[0]);
    assert(crate::text::join_with(j2, '.') == parts[0] + seq!['.'] + parts[1]);
    assert(crate::text::join_with(parts.drop_last(), '.') == parts[0] + seq!['.'] + parts[1]
        + seq!['.'] + parts[2]);
    let whole = parts[0] + seq!['.'] + parts[1] + seq!['.'] + parts[2] + seq!['.'] + parts[3];
    assert(s == whole);
    assert forall|i: int| 0 <= i < s.len() implies is_digit(#[trigger] s[i]) || s[i] == '.' by {
        let l0 = parts[0].len() as int;
        let l1 = parts[1].len() as int;
        let l2 = parts[2].len() as int;
        if i < l0 {
            assert(s[i] == parts[0][i]);
        } else if i == l0 {
        } else if i < l0 + 1 + l1 {
            assert(s[i] == parts[1][i - l0 - 1]);
        } else if i == l0 + 1 + l1 {
        } else if i < l0 + 1 + l1 + 1 + l2 {
            assert(s[i] == parts[2][i - l0 - l1 - 2]);
        } else if i == l0 + 1 + l1 + 1 + l2 {
        } else {
            assert(s[i] == parts[3][i - l0 - l1 - l2 - 3]);
        }
    }
}

} // verus!

verus! {

proof fn lemma_digit_char(c: char)
    requires
        is_digit(c),
    ensures
        crate::text::digit_char(digit_value(c)) == c,
        digit_value(c) < 10,
{
}

proof fn lemma_octet_roundtrip(p: Seq<char>)
    requires
        is_octet_text(p),
    ensures
        nat_text(digits_value(p)) == p,
        digits_value(p) as u8 as nat == digits_value(p),
{
    assert(is_digit(p[0]));
    lemma_digit_char(p[0]);
    if p.len() == 1 {
        assert(p.drop_last().len() == 0);
        assert(digits_value(p.drop_last()) == 0);
        assert(p.last() == p[0]);
        assert(digits_value(p) == digit_value(p[0]));
        assert(nat_text(digits_value(p)) == seq![p[0]]);
        assert(nat_text(digits_value(p)) =~= p);
    } else if p.len() == 2 {
        assert(is_digit(p[1]));
        lemma_digit_char(p[1]);
        let d0 = digit_value(p[0]);
        let d1 = digit_value(p[1]);
        assert(p.drop_last().drop_last().len() == 0);
        assert(digits_value(p.drop_last().drop_last()) == 0);
        assert(p.drop_last().last() == p[0]);
        assert(p.last() == p[1]);
        assert(digits_value(p.drop_last()) == d0);
        assert(digits_value(p) == d0 * 10 + d1);
        assert(d0 >= 1);
        let v = digits_value(p);
        assert(v / 10 == d0);
        assert(v % 10 == d1);
        assert(nat_text(d0) =~= seq![p[0]]);
        assert(nat_text(v) =~= p);
    } else {
        assert(is_digit(p[1]));
        assert(is_digit(p[2]));
        lemma_digit_char(p[1]);
        lemma_digit_char(p[2]);
        let d0 = digit_value(p[0]);
        let d1 = digit_value(p[1]);
        let d2 = digit_value(p[2]);
        let q = p.drop_last();
        assert(q.drop_last().drop_last().len() == 0);
        assert(digits_value(q.drop_last().drop_last()) == 0);
        assert(q.drop_last().last() == p[0]);
        assert(p.last() == p[2]);
        assert(q.last() == p[1]);
        assert(digits_value(q.drop_last()) == d0);
        assert(digits_value(q) == d0 * 10 + d1);
        assert(digits_value(p) == (d0 * 10 + d1) * 10 + d2);
        assert(d0 >= 1);
        let v = digits_value(p);
        let w = d0 * 10 + d1;
        assert(v / 10 == w);
        assert(v % 10 == d2);
        assert(w / 10 == d0);
        assert(w % 10 == d1);
        assert(w >= 10);
        assert(nat_text(d0) =~= seq![p[0]]);
        assert(nat_text(w) =~= seq![p[0], p[1]]);
        assert(nat_text(v) =~= p);
    }
}

/// A dotted-decimal address is written in exactly one way: rendering the address that a
/// text denotes gives the text back.
pub proof fn law_ipv4_text_canonical(s: Seq<char>)
    requires
        is_ipv4_text(s),
    ensures
        ipv4_text(ipv4_of_text(s)) == s,
{
    let parts = split_on(s, '.');
    crate::text::lemma_split_join(s, '.');
    assert(is_octet_text(parts[0]));
    assert(is_octet_text(parts[1]));
    assert(is_octet_text(parts[2]));
    assert(is_octet_text(parts[3]));
    lemma_octet_roundtrip(parts[0]);
    lemma_octet_roundtrip(parts[1]);
    lemma_octet_roundtrip(parts[2]);
    lemma_octet_roundtrip(parts[3]);
    let j2 = parts.drop_last().drop_last();
    let j1 = j2.drop_last();
    assert(j1.len() == 1);
    assert(crate::text::join_with(j1, '.') == parts[0]);
    assert(crate::text::join_with(j2, '.') == parts[0] + seq!['.'] + parts[1]);
    assert(crate::text::join_with(parts.drop_last(), '.') == parts[0] + seq!['.'] + parts[1]
        + seq!['.'] + parts[2]);
    assert(s == parts[0] + seq!['.'] + parts[1] + seq!['.'] + parts[2] + seq!['.'] + parts[3]);
}

} // verus!
