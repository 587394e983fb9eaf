//! Network endpoints as plain values.

use crate::text::{
    all_digits, decimal, lemma_decimal_injective, lemma_decimal_is_digits,
    lemma_digits_end_at_mark, push_decimal,
};
use vstd::prelude::*;
use vstd::string::StringExecFns;

verus! {

/// An IPv4 address `a.b.c.d` and a port, as observed by the transport layer.
///
/// Two endpoints are the same source only if the whole address and the port
/// agree: clients behind one address but on different ports are distinct.
#[derive(Clone, Copy, Debug, PartialEq, Eq, Structural)]
pub struct Endpoint {
    pub a: u8,
    pub b: u8,
    pub c: u8,
    pub d: u8,
    pub port: u16,
}

impl Endpoint {
    /// Builds the endpoint `a.b.c.d:port`.
    pub fn new(a: u8, b: u8, c: u8, d: u8, port: u16) -> (endpoint: Endpoint)
        ensures
            endpoint == (Endpoint { a, b, c, d, port }),
    {
        Endpoint { a, b, c, d, port }
    }

    /// The endpoint in dotted-decimal notation with its port: `a.b.c.d:port`.
    pub open spec fn text(self) -> Seq<char> {
        decimal(self.a as nat) + seq!['.'] + decimal(self.b as nat) + seq!['.'] + decimal(
            self.c as nat,
        ) + seq!['.'] + decimal(self.d as nat) + seq![':'] + decimal(self.port as nat)
    }

    /// Appends the endpoint, written as `a.b.c.d:port`, to `out`.
    pub fn push_text(&self, out: &mut String)
        ensures
            final(out)@ == old(out)@ + self.text(),
    {
        proof {
            reveal_strlit(".");
            reveal_strlit(":");
        }
        push_decimal(out, self.a as u16);
        out.append(".");
        push_decimal(out, self.b as u16);
        out.append(".");
        push_decimal(out, self.c as u16);
        out.append(".");
        push_decimal(out, self.d as u16);
        out.append(":");
        push_decimal(out, self.port);
        assert(".".view() =~= seq!['.']);
        assert(":".view() =~= seq![':']);
        assert(out@ =~= old(out)@ + self.text());
    }

    /// The endpoint written as `a.b.c.d:port`.
    pub fn to_text(&self) -> (text: String)
        ensures
            text@ == self.text(),
    {
        let mut text = String::new();
        self.push_text(&mut text);
        assert(text@ =~= self.text());
        text
    }

    /// Whether `self` and `other` are the same source.
    pub fn same_source(&self, other: &Endpoint) -> (same: bool)
        ensures
            same == (*self == *other),
    {
        self.a == other.a && self.b == other.b && self.c == other.c && self.d == other.d
            && self.port == other.port
    }
}

/// No character of `s` is a space.
pub open spec fn spaceless(s: Seq<char>) -> bool {
    forall|i: int| 0 <= i < s.len() ==> #[trigger] s[i] != ' '
}

/// Joining two texts without a space gives a text without a space.
proof fn lemma_spaceless_join(s: Seq<char>, t: Seq<char>)
    requires
        spaceless(s),
        spaceless(t),
    ensures
        spaceless(s + t),
{
    assert forall|i: int| 0 <= i < (s + t).len() implies #[trigger] (s + t)[i] != ' ' by {
        if i < s.len() {
            assert((s + t)[i] == s[i]);
        } else {
            assert((s + t)[i] == t[i - s.len()]);
        }
    }
}

/// The text of an endpoint holds no space.
pub proof fn lemma_text_is_spaceless(endpoint: Endpoint)
    ensures
        spaceless(endpoint.text()),
{
    let a = decimal(endpoint.a as nat);
    let b = decimal(endpoint.b as nat);
    let c = decimal(endpoint.c as nat);
    let d = decimal(endpoint.d as nat);
    let port = decimal(endpoint.port as nat);
    lemma_decimal_is_digits(endpoint.a as nat);
    lemma_decimal_is_digits(endpoint.b as nat);
    lemma_decimal_is_digits(endpoint.c as nat);
    lemma_decimal_is_digits(endpoint.d as nat);
    lemma_decimal_is_digits(endpoint.port as nat);
    let dot = seq!['.'];
    let colon = seq![':'];
    assert(spaceless(dot));
    assert(spaceless(colon));
    lemma_spaceless_join(a, dot);
    lemma_spaceless_join(a + dot, b);
    lemma_spaceless_join(a + dot + b, dot);
    lemma_spaceless_join(a + dot + b + dot, c);
    lemma_spaceless_join(a + dot + b + dot + c, dot);
    lemma_spaceless_join(a + dot + b + dot + c + dot, d);
    lemma_spaceless_join(a + dot + b + dot + c + dot + d, colon);
    lemma_spaceless_join(a + dot + b + dot + c + dot + d + colon, port);
}

/// The text `a.b.c.d:port` made of five numerals.
spec fn joined(a: Seq<char>, b: Seq<char>, c: Seq<char>, d: Seq<char>, port: Seq<char>) -> Seq<
    char,
> {
    a + seq!['.'] + b + seq!['.'] + c + seq!['.'] + d + seq![':'] + port
}

/// The text `a.b.c.d:port` is the numeral `a`, a dot, and the text of the
/// four other numerals with one dot fewer.
proof fn lemma_joined_splits(
    a: Seq<char>,
    b: Seq<char>,
    c: Seq<char>,
    d: Seq<char>,
    port: Seq<char>,
)
    ensures
        joined(a, b, c, d, port) == a.push('.') + (b.push('.') + (c.push('.') + (d.push(':')
            + port))),
{
    assert(joined(a, b, c, d, port) =~= a.push('.') + (b.push('.') + (c.push('.') + (d.push(':')
        + port))));
}

/// Five numerals can be read back from their text `a.b.c.d:port`.
proof fn lemma_joined_injective(
    a1: Seq<char>,
    b1: Seq<char>,
    c1: Seq<char>,
    d1: Seq<char>,
    port1: Seq<char>,
    a2: Seq<char>,
    b2: Seq<char>,
    c2: Seq<char>,
    d2: Seq<char>,
    port2: Seq<char>,
)
    requires
        all_digits(a1) && all_digits(b1) && all_digits(c1) && all_digits(d1),
        all_digits(a2) && all_digits(b2) && all_digits(c2) && all_digits(d2),
        joined(a1, b1, c1, d1, port1) == joined(a2, b2, c2, d2, port2),
    ensures
        a1 == a2 && b1 == b2 && c1 == c2 && d1 == d2 && port1 == port2,
{
    lemma_joined_splits(a1, b1, c1, d1, port1);
    lemma_joined_splits(a2, b2, c2, d2, port2);
    let after_c1 = d1.push(':') + port1;
    let after_c2 = d2.push(':') + port2;
    let after_b1 = c1.push('.') + after_c1;
    let after_b2 = c2.push('.') + after_c2;
    let after_a1 = b1.push('.') + after_b1;
    let after_a2 = b2.push('.') + after_b2;
    lemma_digits_end_at_mark(a1, after_a1, a2, after_a2, '.');
    lemma_digits_end_at_mark(b1, after_b1, b2, after_b2, '.');
    lemma_digits_end_at_mark(c1, after_c1, c2, after_c2, '.');
    lemma_digits_end_at_mark(d1, port1, d2, port2, ':');
}

/// Different endpoints have different texts: the address and the port can
/// be read back from the text.
pub proof fn lemma_text_injective(e1: Endpoint, e2: Endpoint)
    requires
        e1.text() == e2.text(),
    ensures
        e1 == e2,
{
    lemma_decimal_is_digits(e1.a as nat);
    lemma_decimal_is_digits(e1.b as nat);
    lemma_decimal_is_digits(e1.c as nat);
    lemma_decimal_is_digits(e1.d as nat);
    lemma_decimal_is_digits(e2.a as nat);
    lemma_decimal_is_digits(e2.b as nat);
    lemma_decimal_is_digits(e2.c as nat);
    lemma_decimal_is_digits(e2.d as nat);
    lemma_joined_injective(
        decimal(e1.a as nat),
        decimal(e1.b as nat),
        decimal(e1.c as nat),
        decimal(e1.d as nat),
        decimal(e1.port as nat),
        decimal(e2.a as nat),
        decimal(e2.b as nat),
        decimal(e2.c as nat),
        decimal(e2.d as nat),
        decimal(e2.port as nat),
    );
    lemma_decimal_injective(e1.a as nat, e2.a as nat);
    lemma_decimal_injective(e1.b as nat, e2.b as nat);
    lemma_decimal_injective(e1.c as nat, e2.c as nat);
    lemma_decimal_injective(e1.d as nat, e2.d as nat);
    lemma_decimal_injective(e1.port as nat, e2.port as nat);
}

} // verus!
