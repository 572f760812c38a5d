//! Internet addresses and their literals in text.
use vstd::prelude::*;

verus! {

/// An internet address.
#[derive(Debug, PartialEq, Eq, Clone, Copy)]
pub enum IpAddress {
    /// An IPv4 address, by its octets.
    Ipv4([u8; 4]),
    /// An IPv6 address, by its octets.
    Ipv6([u8; 16]),
}

/// The character for a decimal digit.
pub open spec fn digit(value: int) -> char {
    (0x30 + value) as char
}

/// A number below 256 in decimal notation, without leading zeros.
pub open spec fn decimal(value: int) -> Seq<char> {
    if value < 10 {
        seq![digit(value)]
    } else if value < 100 {
        seq![digit(value / 10), digit(value % 10)]
    } else {
        seq![digit(value / 100), digit(value / 10 % 10), digit(value % 10)]
    }
}

/// An IPv4 address in dot-decimal notation.
pub open spec fn dot_decimal(octets: [u8; 4]) -> Seq<char> {
    decimal(octets[0] as int) + seq!['.'] + decimal(octets[1] as int) + seq!['.'] + decimal(
        octets[2] as int,
    ) + seq!['.'] + decimal(octets[3] as int)
}

/// The address that a text spells out in dot-decimal notation, if it does.
pub open spec fn ipv4_literal(text: Seq<char>) -> Option<[u8; 4]> {
    if exists|octets: [u8; 4]| text == #[trigger] dot_decimal(octets) {
        Some(choose|octets: [u8; 4]| text == #[trigger] dot_decimal(octets))
    } else {
        None
    }
}

/// What the `FromStr` implementation of `smoltcp::wire::Ipv6Address` reads in a text.
pub uninterp spec fn ipv6_literal(text: Seq<char>) -> Option<[u8; 16]>;

/// Reads an IPv4 address: `str::parse` into `smoltcp::wire::Ipv4Address`, the standard
/// library's type.
///
/// Taken on trust: it accepts the four octets in dot-decimal notation, without leading
/// zeros, and nothing else.
#[verifier::external_body]
fn read_ipv4(text: &str) -> (octets: Option<[u8; 4]>)
    ensures
        octets matches Some(octets) ==> text@ == dot_decimal(octets),
        forall|written: [u8; 4]|
            text@ == #[trigger] dot_decimal(written) ==> octets == Some(written),
{
    text.parse::<smoltcp::wire::Ipv4Address>().ok().map(|address| address.octets())
}

/// Reads an IPv6 address: `str::parse` into `smoltcp::wire::Ipv6Address`, the standard
/// library's type.
///
/// Taken on trust: the result is a function of the text alone, and an address has a colon
/// in it. How an IPv6 address is spelled is otherwise only named.
#[verifier::external_body]
pub(crate) fn parse_ipv6(text: &str) -> (octets: Option<[u8; 16]>)
    ensures
        octets == ipv6_literal(text@),
        octets is Some ==> text@.contains(':'),
{
    text.parse::<smoltcp::wire::Ipv6Address>().ok().map(|address| address.octets())
}

/// Reads an IPv4 address in dot-decimal notation.
pub fn parse_ipv4(text: &str) -> (octets: Option<[u8; 4]>)
    ensures
        octets == ipv4_literal(text@),
        octets matches Some(octets) ==> text@ == dot_decimal(octets),
        forall|written: [u8; 4]|
            text@ == #[trigger] dot_decimal(written) ==> octets == Some(written),
{
    read_ipv4(text)
}

/// A decimal number before a dot can be told from what follows.
proof fn lemma_decimal_before_dot(a: int, b: int, x: Seq<char>, y: Seq<char>)
    requires
        0 <= a < 256,
        0 <= b < 256,
        decimal(a) + seq!['.'] + x == decimal(b) + seq!['.'] + y,
    ensures
        a == b,
        x == y,
{
    let s = decimal(a) + seq!['.'] + x;
    let t = decimal(b) + seq!['.'] + y;
    let n = decimal(a).len() as int;
    let m = decimal(b).len() as int;
    assert(s[n] == '.' && t[m] == '.');
    assert(forall|d: int| 0 <= d < 10 ==> #[trigger] digit(d) != '.');
    assert(n == m) by {
        if n < m {
            assert(t[n] == decimal(b)[n]);
        }
        if m < n {
            assert(s[m] == decimal(a)[m]);
        }
    }
    assert forall|i: int| 0 <= i < n implies decimal(a)[i] == decimal(b)[i] by {
        assert(s[i] == decimal(a)[i]);
        assert(t[i] == decimal(b)[i]);
    }
    lemma_decimal_injective(a, b);
    assert(s.skip(n + 1) =~= x);
    assert(t.skip(n + 1) =~= y);
}

/// A decimal number determines its value.
proof fn lemma_decimal_injective(a: int, b: int)
    requires
        0 <= a < 256,
        0 <= b < 256,
        decimal(a).len() == decimal(b).len(),
        forall|i: int| 0 <= i < decimal(a).len() ==> decimal(a)[i] == decimal(b)[i],
    ensures
        a == b,
{
    assert(forall|c: int, d: int|
        0 <= c < 10 && 0 <= d < 10 && #[trigger] digit(c) == #[trigger] digit(d) ==> c == d);
    assert(decimal(a)[0] == decimal(b)[0]);
    if decimal(a).len() > 1 {
        assert(decimal(a)[1] == decimal(b)[1]);
    }
    if decimal(a).len() > 2 {
        assert(decimal(a)[2] == decimal(b)[2]);
    }
}

/// The parts between the dots, taken from the left.
proof fn lemma_regroup(a: Seq<char>, b: Seq<char>, c: Seq<char>, d: Seq<char>)
    ensures
        a + seq!['.'] + b + seq!['.'] + c + seq!['.'] + d == a + seq!['.'] + (b + seq!['.'] + (c
            + seq!['.'] + d)),
{
    assert(a + seq!['.'] + b + seq!['.'] + c + seq!['.'] + d =~= a + seq!['.'] + (b + seq!['.'] + (c
        + seq!['.'] + d)));
}

/// Dot-decimal notation determines the address.
pub proof fn law_dot_decimal_is_injective(a: [u8; 4], b: [u8; 4])
    requires
        dot_decimal(a) == dot_decimal(b),
    ensures
        a == b,
{
    let dot = seq!['.'];
    let a1 = decimal(a[1] as int);
    let a2 = decimal(a[2] as int);
    let a3 = decimal(a[3] as int);
    let b1 = decimal(b[1] as int);
    let b2 = decimal(b[2] as int);
    let b3 = decimal(b[3] as int);
    lemma_regroup(decimal(a[0] as int), a1, a2, a3);
    lemma_regroup(decimal(b[0] as int), b1, b2, b3);
    lemma_decimal_before_dot(
        a[0] as int,
        b[0] as int,
        a1 + dot + (a2 + dot + a3),
        b1 + dot + (b2 + dot + b3),
    );
    lemma_decimal_before_dot(a[1] as int, b[1] as int, a2 + dot + a3, b2 + dot + b3);
    lemma_decimal_before_dot(a[2] as int, b[2] as int, a3, b3);
    lemma_decimal_injective(a[3] as int, b[3] as int);
    assert(a@ =~= b@) by {
        assert forall|i: int| 0 <= i < 4 implies a@[i] == b@[i] by {
            assert(i == 0 || i == 1 || i == 2 || i == 3);
        }
    }
    assert(a =~= b);
}

/// The characters of the digits follow one another from `0` on.
proof fn lemma_digits(value: int)
    requires
        0 <= value < 10,
    ensures
        digit(value) as int == 0x30 + value,
{
}

/// The decimal notation of a number is made of digits that add up to it, each ten times the
/// worth of the one behind it. It has no leading zero.
pub proof fn law_decimal_digits_add_up(value: int)
    requires
        0 <= value < 256,
    ensures
        1 <= decimal(value).len() <= 3,
        forall|i: int|
            0 <= i < decimal(value).len() ==> '0' <= #[trigger] decimal(value)[i] <= '9',
        decimal(value).len() > 1 ==> decimal(value)[0] != '0',
        decimal(value).len() == 1 ==> value == decimal(value)[0] as int - 0x30,
        decimal(value).len() == 2 ==> value == 10 * (decimal(value)[0] as int - 0x30) + (decimal(
            value,
        )[1] as int - 0x30),
        decimal(value).len() == 3 ==> value == 100 * (decimal(value)[0] as int - 0x30) + 10 * (
        decimal(value)[1] as int - 0x30) + (decimal(value)[2] as int - 0x30),
{
    lemma_digits(value % 10);
    lemma_digits(value / 10 % 10);
    lemma_digits(value / 100);
}

/// Dot-decimal notation has the four octets in their order, with three dots between them.
pub proof fn law_dot_decimal_has_the_octets_in_order(octets: [u8; 4])
    ensures
        ({
            let text = dot_decimal(octets);
            let a = decimal(octets@[0] as int);
            let b = decimal(octets@[1] as int);
            let c = decimal(octets@[2] as int);
            let d = decimal(octets@[3] as int);
            let second = a.len() as int + 1;
            let third = second + b.len() as int + 1;
            let fourth = third + c.len() as int + 1;
            &&& text.len() == fourth + d.len()
            &&& text.take(second) == a.push('.')
            &&& text.subrange(second, third) == b.push('.')
            &&& text.subrange(third, fourth) == c.push('.')
            &&& text.skip(fourth) == d
        }),
{
    let text = dot_decimal(octets);
    let a = decimal(octets@[0] as int);
    let b = decimal(octets@[1] as int);
    let c = decimal(octets@[2] as int);
    let d = decimal(octets@[3] as int);
    let second = a.len() as int + 1;
    let third = second + b.len() as int + 1;
    let fourth = third + c.len() as int + 1;
    assert(text.take(second) =~= a.push('.'));
    assert(text.subrange(second, third) =~= b.push('.'));
    assert(text.subrange(third, fourth) =~= c.push('.'));
    assert(text.skip(fourth) =~= d);
}

/// A text is read as an IPv4 address exactly where it is that address in dot-decimal
/// notation.
pub proof fn law_ipv4_literal_is_dot_decimal(text: Seq<char>, octets: [u8; 4])
    ensures
        ipv4_literal(text) == Some(octets) <==> text == dot_decimal(octets),
{
    if text == dot_decimal(octets) {
        law_ipv4_literal_is_read_back(octets);
    }
}

/// A text that does not begin with a digit is no IPv4 address.
pub proof fn law_ipv4_literal_begins_with_a_digit(text: Seq<char>)
    requires
        ipv4_literal(text) is Some,
    ensures
        text.len() > 0,
        '0' <= text[0] <= '9',
{
    let octets = ipv4_literal(text)->0;
    assert(text == dot_decimal(octets));
    assert(text[0] == decimal(octets[0] as int)[0]);
}

/// An IPv4 address written in dot-decimal notation is read back as the same address.
pub proof fn law_ipv4_literal_is_read_back(octets: [u8; 4])
    ensures
        ipv4_literal(dot_decimal(octets)) == Some(octets),
{
    law_dot_decimal_is_injective(octets, ipv4_literal(dot_decimal(octets))->0);
}

} // verus!
