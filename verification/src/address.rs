//! Peer addresses: an IPv4 or IPv6 host and a UDP port, their text, and the
//! grammar by which a destination is named on the command line.

use crate::decimal::{
    all_digits, decimal, decimal_value, is_digit, lemma_decimal, parse_decimal, push_decimal,
};
use crate::hex::is_hex_digit;
use crate::ipv6::{lemma_v6_round_trip, parse_v6, push_v6, v6_of, v6_text};
use crate::text::{
    copy_range, find_char, first_index, from_chars, is_whitespace, lemma_first_index,
    lemma_split_first, lemma_split_whole, no_whitespace, rows_view, same_chars, split,
    split_chars, to_chars,
};
use vstd::prelude::*;

verus! {

/// A host: the four octets of an IPv4 host, or the eight groups of sixteen bits
/// of an IPv6 host, the first one first.
#[derive(Clone, Copy, Debug, PartialEq, Eq, Structural)]
pub enum Host {
    V4(u8, u8, u8, u8),
    V6(u16, u16, u16, u16, u16, u16, u16, u16),
}

/// The address of a peer: a host, a port, and for an IPv6 host the scope that
/// was written with it (zero where none was).
#[derive(Clone, Copy, Debug, PartialEq, Eq, Structural)]
pub struct Address {
    pub host: Host,
    pub port: u16,
    pub scope: u32,
}

/// The eight groups of an IPv6 host.
pub open spec fn groups(h: Host) -> Seq<u16> {
    match h {
        Host::V6(a, b, c, d, e, f, g, h) => seq![a, b, c, d, e, f, g, h],
        _ => Seq::empty(),
    }
}

/// The dotted text of four octets: their decimal numerals with dots between.
pub open spec fn dotted(a: u8, b: u8, c: u8, d: u8) -> Seq<char> {
    decimal(a as nat) + seq!['.'] + decimal(b as nat) + seq!['.'] + decimal(c as nat) + seq!['.']
        + decimal(d as nat)
}

/// The text of a host: dotted for IPv4, in groups for IPv6.
pub open spec fn host_text(h: Host) -> Seq<char> {
    match h {
        Host::V4(a, b, c, d) => dotted(a, b, c, d),
        _ => v6_text(groups(h)),
    }
}

/// The scope as it is written behind an IPv6 host: nothing where it is zero,
/// else a percent sign and its decimal numeral.
pub open spec fn scope_text(scope: u32) -> Seq<char> {
    if scope == 0 {
        Seq::empty()
    } else {
        seq!['%'] + decimal(scope as nat)
    }
}

/// The text of an address: the host, a colon and the port; an IPv6 host
/// stands in square brackets, with its scope.
pub open spec fn address_text(a: Address) -> Seq<char> {
    match a.host {
        Host::V4(_, _, _, _) => host_text(a.host) + seq![':'] + decimal(a.port as nat),
        _ => seq!['['] + host_text(a.host) + scope_text(a.scope) + seq![']', ':'] + decimal(
            a.port as nat,
        ),
    }
}

/// The octet that `s` names: one to three digits, no leading zero but in `0`
/// itself, and at most 255.
pub open spec fn octet_of(s: Seq<char>) -> Option<u8> {
    if 1 <= s.len() <= 3 && all_digits(s) && (s.len() == 1 || s[0] != '0') && decimal_value(s)
        <= 255 {
        Some(decimal_value(s) as u8)
    } else {
        None
    }
}

/// The IPv4 host that `s` names: four octets with a dot between each two.
pub open spec fn v4_of(s: Seq<char>) -> Option<Host> {
    let parts = split(s, '.');
    if parts.len() == 4 && octet_of(parts[0]) is Some && octet_of(parts[1]) is Some && octet_of(
        parts[2],
    ) is Some && octet_of(parts[3]) is Some {
        Some(
            Host::V4(
                octet_of(parts[0])->0,
                octet_of(parts[1])->0,
                octet_of(parts[2])->0,
                octet_of(parts[3])->0,
            ),
        )
    } else {
        None
    }
}

/// The host that `s` names: an IPv6 host where `s` holds a colon, else an IPv4
/// host in dotted text.
pub open spec fn host_of(s: Seq<char>) -> Option<Host> {
    if first_index(s, ':') < s.len() {
        v6_of(s)
    } else {
        v4_of(s)
    }
}

/// The port that `s` names behind the colon of an address: digits only, one at
/// least, leading zeros allowed, and at most 65535.
pub open spec fn port_of(s: Seq<char>) -> Option<u16> {
    if s.len() > 0 && all_digits(s) && decimal_value(s) <= 65535 {
        Some(decimal_value(s) as u16)
    } else {
        None
    }
}

/// The scope that `s` names behind the percent sign of an IPv6 address: digits
/// only, one at least, leading zeros allowed, and below two to the power 32.
pub open spec fn scope_of(s: Seq<char>) -> Option<u32> {
    if s.len() > 0 && all_digits(s) && decimal_value(s) <= 0xffff_ffff {
        Some(decimal_value(s) as u32)
    } else {
        None
    }
}

/// The port that a word of its own names: as behind a colon, and a plus sign
/// may stand before the digits.
pub open spec fn port_word(s: Seq<char>) -> Option<u16> {
    if s.len() > 0 && s[0] == '+' {
        port_of(s.skip(1))
    } else {
        port_of(s)
    }
}

/// The IPv4 address that `s` names in one word: a dotted host, a colon and a
/// port.
pub open spec fn plain_of(s: Seq<char>) -> Option<Address> {
    let parts = split(s, ':');
    if parts.len() == 2 && v4_of(parts[0]) is Some && port_of(parts[1]) is Some {
        Some(Address { host: v4_of(parts[0])->0, port: port_of(parts[1])->0, scope: 0 })
    } else {
        None
    }
}

/// The scope written in the brackets of an IPv6 address, whose text between
/// the brackets is `inner`: zero where `inner` holds no percent sign, else what
/// stands behind the first one.
pub open spec fn inner_scope(inner: Seq<char>) -> Option<u32> {
    let mark = first_index(inner, '%') as int;
    if mark >= inner.len() {
        Some(0u32)
    } else {
        scope_of(inner.skip(mark + 1))
    }
}

/// The IPv6 address that `s` names in one word: an opening bracket, the host,
/// a percent sign and a scope if there is one, a closing bracket, a colon and
/// a port.
pub open spec fn bracketed_of(s: Seq<char>) -> Option<Address> {
    let close = first_index(s, ']') as int;
    if s.len() == 0 || s[0] != '[' || close >= s.len() {
        None
    } else {
        let inner = s.subrange(1, close);
        let mark = first_index(inner, '%') as int;
        let rest = s.skip(close + 1);
        if v6_of(inner.take(mark)) is Some && inner_scope(inner) is Some && rest.len() > 0
            && rest[0] == ':' && port_of(rest.skip(1)) is Some {
            Some(
                Address {
                    host: v6_of(inner.take(mark))->0,
                    port: port_of(rest.skip(1))->0,
                    scope: inner_scope(inner)->0,
                },
            )
        } else {
            None
        }
    }
}

/// The address that `s` names in one word: an IPv6 address where it starts
/// with a bracket, else an IPv4 address.
pub open spec fn combined_of(s: Seq<char>) -> Option<Address> {
    if s.len() > 0 && s[0] == '[' {
        bracketed_of(s)
    } else {
        plain_of(s)
    }
}

/// The host that a word names when the port follows in a word of its own:
/// `localhost` is 127.0.0.1, anything else is read as the text of a host.
pub open spec fn named_host(s: Seq<char>) -> Option<Host> {
    if s == "localhost"@ {
        Some(Host::V4(127, 0, 0, 1))
    } else {
        host_of(s)
    }
}

/// The destination that the words of an `add` command name. The first word alone
/// is taken where it is a whole address; otherwise it names the host and the
/// second word the port. Words after these do not count.
pub open spec fn destination_of(words: Seq<Seq<char>>) -> Option<Address> {
    if words.len() == 0 {
        None
    } else if combined_of(words[0]) is Some {
        combined_of(words[0])
    } else if words.len() >= 2 && named_host(words[0]) is Some && port_word(words[1]) is Some {
        Some(Address { host: named_host(words[0])->0, port: port_word(words[1])->0, scope: 0 })
    } else {
        None
    }
}

/// The views of the words in `words`, in order.
pub open spec fn words_view(words: Seq<&str>) -> Seq<Seq<char>> {
    words.map_values(|w: &str| w@)
}

/// The octet that `chars` name, if they name one.
pub(crate) fn parse_octet(chars: &[char]) -> (octet: Option<u8>)
    ensures
        octet == octet_of(chars@),
{
    let n: usize = chars.len();
    if n == 0 || n > 3 {
        return None;
    }
    if n > 1 && chars[0] == '0' {
        return None;
    }
    match parse_decimal(chars, 255) {
        Some(v) => Some(v as u8),
        None => None,
    }
}

/// The IPv4 host that `chars` name in dotted text, if they name one.
pub(crate) fn parse_v4(chars: &[char]) -> (host: Option<Host>)
    ensures
        host == v4_of(chars@),
{
    let parts = split_chars(chars, '.');
    if parts.len() != 4 {
        return None;
    }
    proof {
        assert(forall|i: int| 0 <= i < 4 ==> rows_view(parts@)[i] == parts@[i]@);
    }
    let a = parse_octet(parts[0].as_slice());
    let b = parse_octet(parts[1].as_slice());
    let c = parse_octet(parts[2].as_slice());
    let d = parse_octet(parts[3].as_slice());
    match (a, b, c, d) {
        (Some(a), Some(b), Some(c), Some(d)) => Some(Host::V4(a, b, c, d)),
        _ => None,
    }
}

/// The host that `chars` name, if they name one.
pub(crate) fn parse_host(chars: &[char]) -> (host: Option<Host>)
    ensures
        host == host_of(chars@),
{
    let colon: usize = find_char(chars, 0, ':');
    proof {
        assert(chars@.skip(0) =~= chars@);
    }
    if colon < chars.len() {
        parse_v6(chars)
    } else {
        parse_v4(chars)
    }
}

/// The port that `chars` name behind the colon of an address, if they name one.
pub(crate) fn parse_port_digits(chars: &[char]) -> (port: Option<u16>)
    ensures
        port == port_of(chars@),
{
    match parse_decimal(chars, 65535) {
        Some(v) => Some(v as u16),
        None => None,
    }
}

/// The scope that `chars` name behind a percent sign, if they name one.
pub(crate) fn parse_scope(chars: &[char]) -> (scope: Option<u32>)
    ensures
        scope == scope_of(chars@),
{
    match parse_decimal(chars, 0xffff_ffff) {
        Some(v) => Some(v as u32),
        None => None,
    }
}

/// The port that `chars` name as a word of their own, if they name one.
pub(crate) fn parse_port_word(chars: &[char]) -> (port: Option<u16>)
    ensures
        port == port_word(chars@),
{
    if chars.len() > 0 && chars[0] == '+' {
        let rest = copy_range(chars, 1, chars.len());
        proof {
            assert(chars@.skip(1) =~= chars@.subrange(1, chars@.len() as int));
        }
        parse_port_digits(rest.as_slice())
    } else {
        parse_port_digits(chars)
    }
}

/// The IPv4 address that `chars` name in one word, if they name one.
pub(crate) fn parse_plain(chars: &[char]) -> (address: Option<Address>)
    ensures
        address == plain_of(chars@),
{
    let parts = split_chars(chars, ':');
    if parts.len() != 2 {
        return None;
    }
    proof {
        assert(forall|i: int| 0 <= i < 2 ==> rows_view(parts@)[i] == parts@[i]@);
    }
    let host = parse_v4(parts[0].as_slice());
    let port = parse_port_digits(parts[1].as_slice());
    match (host, port) {
        (Some(host), Some(port)) => Some(Address { host, port, scope: 0 }),
        _ => None,
    }
}

/// The IPv6 address that `chars` name in one word, if they name one.
pub(crate) fn parse_bracketed(chars: &[char]) -> (address: Option<Address>)
    ensures
        address == bracketed_of(chars@),
{
    let n: usize = chars.len();
    if n == 0 || chars[0] != '[' {
        return None;
    }
    let close: usize = find_char(chars, 0, ']');
    proof {
        assert(chars@.skip(0) =~= chars@);
    }
    if close >= n {
        return None;
    }
    let inner = copy_range(chars, 1, close);
    let mark: usize = find_char(inner.as_slice(), 0, '%');
    proof {
        assert(inner@.skip(0) =~= inner@);
    }
    let ip = copy_range(inner.as_slice(), 0, mark);
    proof {
        assert(ip@ =~= inner@.take(mark as int));
    }
    let host = parse_v6(ip.as_slice());
    let scope = if mark >= inner.len() {
        Some(0u32)
    } else {
        let digits = copy_range(inner.as_slice(), mark + 1, inner.len());
        proof {
            assert(digits@ =~= inner@.skip(mark + 1));
        }
        parse_scope(digits.as_slice())
    };
    if close + 1 >= n || chars[close + 1] != ':' {
        proof {
            assert(chars@.skip(close + 1).len() == n - close - 1);
            if close + 1 < n {
                assert(chars@.skip(close + 1)[0] == chars@[close + 1]);
            }
        }
        return None;
    }
    let digits = copy_range(chars, close + 2, n);
    proof {
        assert(chars@.skip(close + 1)[0] == chars@[close + 1]);
        assert(digits@ =~= chars@.skip(close + 1).skip(1));
    }
    let port = parse_port_digits(digits.as_slice());
    match (host, scope, port) {
        (Some(host), Some(scope), Some(port)) => Some(Address { host, port, scope }),
        _ => None,
    }
}

/// The address that `chars` name in one word, if they name one.
pub(crate) fn parse_combined(chars: &[char]) -> (address: Option<Address>)
    ensures
        address == combined_of(chars@),
{
    if chars.len() > 0 && chars[0] == '[' {
        parse_bracketed(chars)
    } else {
        parse_plain(chars)
    }
}

/// The host that `chars` name where the port follows in a word of its own.
pub(crate) fn parse_named_host(chars: &[char]) -> (host: Option<Host>)
    ensures
        host == named_host(chars@),
{
    let local = to_chars("localhost");
    if same_chars(chars, local.as_slice()) {
        Some(Host::V4(127, 0, 0, 1))
    } else {
        parse_host(chars)
    }
}

/// The destination that `words` name, if they name one.
pub(crate) fn parse_destination(words: &[Vec<char>]) -> (address: Option<Address>)
    ensures
        address == destination_of(rows_view(words@)),
{
    if words.len() == 0 {
        return None;
    }
    let combined = parse_combined(words[0].as_slice());
    if combined.is_some() {
        return combined;
    }
    if words.len() < 2 {
        return None;
    }
    let host = parse_named_host(words[0].as_slice());
    let port = parse_port_word(words[1].as_slice());
    match (host, port) {
        (Some(host), Some(port)) => Some(Address { host, port, scope: 0 }),
        _ => None,
    }
}

/// The destination that the words of an `add` command name, if they name one.
pub fn parse_sockaddr(arguments: &[&str]) -> (address: Option<Address>)
    ensures
        address == destination_of(words_view(arguments@)),
{
    let mut words: Vec<Vec<char>> = Vec::new();
    let mut i: usize = 0;
    while i < arguments.len()
        invariant
            i <= arguments@.len(),
            rows_view(words@) == words_view(arguments@).take(i as int),
        decreases arguments@.len() - i,
    {
        let ghost before = words@;
        let word = to_chars(arguments[i]);
        words.push(word);
        proof {
            assert(rows_view(words@) =~= rows_view(before).push(word@));
            assert(words_view(arguments@).take(i + 1) =~= words_view(arguments@).take(
                i as int,
            ).push(arguments@[i as int]@));
        }
        i += 1;
    }
    proof {
        assert(words_view(arguments@).take(arguments@.len() as int) =~= words_view(arguments@));
    }
    parse_destination(words.as_slice())
}

/// The local port that the arguments of the program name: the first argument
/// behind the program's own name.
pub open spec fn port_argument(arguments: Seq<Seq<char>>) -> Option<u16> {
    if arguments.len() >= 2 {
        port_word(arguments[1])
    } else {
        None
    }
}

/// The local port that the arguments of the program name, if they name one.
/// The program's own name comes first among them; arguments behind the port do
/// not count.
pub fn parse_port(arguments: &[&str]) -> (port: Option<u16>)
    ensures
        port == port_argument(words_view(arguments@)),
{
    if arguments.len() < 2 {
        return None;
    }
    let word = to_chars(arguments[1]);
    parse_port_word(word.as_slice())
}

/// Appends the dotted text of four octets to `out`.
pub(crate) fn push_dotted(out: &mut Vec<char>, a: u8, b: u8, c: u8, d: u8)
    ensures
        final(out)@ == old(out)@ + dotted(a, b, c, d),
{
    push_decimal(out, a as u32);
    out.push('.');
    push_decimal(out, b as u32);
    out.push('.');
    push_decimal(out, c as u32);
    out.push('.');
    push_decimal(out, d as u32);
    assert(out@ =~= old(out)@ + dotted(a, b, c, d));
}

/// Appends the text of `h` to `out`.
pub(crate) fn push_host(out: &mut Vec<char>, h: Host)
    ensures
        final(out)@ == old(out)@ + host_text(h),
{
    match h {
        Host::V4(a, b, c, d) => push_dotted(out, a, b, c, d),
        Host::V6(a, b, c, d, e, f, g, h) => {
            let all: Vec<u16> = vec![a, b, c, d, e, f, g, h];
            assert(all@ =~= seq![a, b, c, d, e, f, g, h]);
            push_v6(out, &all);
        },
    }
}

/// Appends the text of `a` to `out`.
pub(crate) fn push_address(out: &mut Vec<char>, a: Address)
    ensures
        final(out)@ == old(out)@ + address_text(a),
{
    match a.host {
        Host::V4(_, _, _, _) => {
            push_host(out, a.host);
            out.push(':');
            push_decimal(out, a.port as u32);
        },
        _ => {
            out.push('[');
            push_host(out, a.host);
            if a.scope != 0 {
                out.push('%');
                push_decimal(out, a.scope);
            }
            out.push(']');
            out.push(':');
            push_decimal(out, a.port as u32);
        },
    }
    assert(out@ =~= old(out)@ + address_text(a));
}

impl Address {
    /// The address of `port` on the IPv4 host `a.b.c.d`.
    pub fn new(a: u8, b: u8, c: u8, d: u8, port: u16) -> (address: Address)
        ensures
            address == (Address { host: Host::V4(a, b, c, d), port, scope: 0 }),
    {
        Address { host: Host::V4(a, b, c, d), port, scope: 0 }
    }

    /// The address of `port` on this machine, 127.0.0.1.
    pub fn loopback(port: u16) -> (address: Address)
        ensures
            address == (Address { host: Host::V4(127, 0, 0, 1), port, scope: 0 }),
    {
        Address { host: Host::V4(127, 0, 0, 1), port, scope: 0 }
    }

    /// The address of `port` on the IPv6 host of the eight `groups`, in the
    /// scope `scope`.
    pub fn v6(groups: [u16; 8], port: u16, scope: u32) -> (address: Address)
        ensures
            address == (Address {
                host: Host::V6(
                    groups[0],
                    groups[1],
                    groups[2],
                    groups[3],
                    groups[4],
                    groups[5],
                    groups[6],
                    groups[7],
                ),
                port,
                scope,
            }),
    {
        Address {
            host: Host::V6(
                groups[0],
                groups[1],
                groups[2],
                groups[3],
                groups[4],
                groups[5],
                groups[6],
                groups[7],
            ),
            port,
            scope,
        }
    }

    /// Whether the address is one that can be written: only an IPv6 host has
    /// a scope.
    pub open spec fn wf(self) -> bool {
        self.host is V4 ==> self.scope == 0
    }

    /// The address as text.
    pub fn to_text(&self) -> (text: String)
        ensures
            text@ == address_text(*self),
    {
        let mut out: Vec<char> = Vec::new();
        push_address(&mut out, *self);
        assert(out@ =~= address_text(*self));
        from_chars(out.as_slice())
    }
}

/// A decimal numeral holds digits only.
pub proof fn lemma_decimal_plain(n: nat)
    ensures
        forall|i: int| 0 <= i < decimal(n).len() ==> is_digit(#[trigger] decimal(n)[i]),
{
    lemma_decimal(n);
}

/// The numeral of an octet names that octet.
pub proof fn lemma_octet_round_trip(n: u8)
    ensures
        octet_of(decimal(n as nat)) == Some(n),
{
    lemma_decimal(n as nat);
}

/// The dotted text of an IPv4 host names that host, holds no colon, and starts
/// with a digit.
pub proof fn lemma_v4_round_trip(a: u8, b: u8, c: u8, d: u8)
    ensures
        v4_of(dotted(a, b, c, d)) == Some(Host::V4(a, b, c, d)),
        forall|i: int| 0 <= i < dotted(a, b, c, d).len() ==> dotted(a, b, c, d)[i] != ':',
        dotted(a, b, c, d).len() > 0,
        is_digit(dotted(a, b, c, d)[0]),
{
    let d0 = decimal(a as nat);
    let d1 = decimal(b as nat);
    let d2 = decimal(c as nat);
    let d3 = decimal(d as nat);
    lemma_decimal_plain(a as nat);
    lemma_decimal_plain(b as nat);
    lemma_decimal_plain(c as nat);
    lemma_decimal_plain(d as nat);
    lemma_decimal(a as nat);
    let t2 = d2 + seq!['.'] + d3;
    let t1 = d1 + seq!['.'] + t2;
    let t0 = d0 + seq!['.'] + t1;
    assert(dotted(a, b, c, d) =~= t0);
    lemma_split_first(d0, t1, '.');
    lemma_split_first(d1, t2, '.');
    lemma_split_first(d2, d3, '.');
    lemma_split_whole(d3, '.');
    assert(split(t0, '.') =~= seq![d0, d1, d2, d3]);
    lemma_octet_round_trip(a);
    lemma_octet_round_trip(b);
    lemma_octet_round_trip(c);
    lemma_octet_round_trip(d);
    assert(t0[0] == d0[0]);
}

/// The dotted text of four octets holds digits and dots only, and is longer
/// than four characters.
pub proof fn lemma_dotted_chars(a: u8, b: u8, c: u8, d: u8)
    ensures
        dotted(a, b, c, d).len() >= 7,
        forall|i: int|
            0 <= i < dotted(a, b, c, d).len() ==> is_digit(#[trigger] dotted(a, b, c, d)[i])
                || dotted(a, b, c, d)[i] == '.',
{
    let d0 = decimal(a as nat);
    let d1 = decimal(b as nat);
    let d2 = decimal(c as nat);
    let d3 = decimal(d as nat);
    lemma_decimal(a as nat);
    lemma_decimal(b as nat);
    lemma_decimal(c as nat);
    lemma_decimal(d as nat);
    let t = dotted(a, b, c, d);
    assert forall|i: int| 0 <= i < t.len() implies is_digit(#[trigger] t[i]) || t[i] == '.' by {
        if i < d0.len() {
            assert(t[i] == d0[i]);
        } else if d0.len() < i < d0.len() + 1 + d1.len() {
            assert(t[i] == d1[i - d0.len() - 1]);
        } else if d0.len() + 1 + d1.len() < i < d0.len() + d1.len() + d2.len() + 2 {
            assert(t[i] == d2[i - d0.len() - d1.len() - 2]);
        } else if i > d0.len() + d1.len() + d2.len() + 2 {
            assert(t[i] == d3[i - d0.len() - d1.len() - d2.len() - 3]);
        }
    }
}

/// The numeral of a port names that port, behind a colon and as a word of its
/// own.
pub proof fn law_port_round_trip(p: u16)
    ensures
        port_of(decimal(p as nat)) == Some(p),
        port_word(decimal(p as nat)) == Some(p),
{
    lemma_decimal(p as nat);
    assert(is_digit(decimal(p as nat)[0]));
}

/// The text of a host names that host.
pub proof fn law_host_round_trip(h: Host)
    ensures
        host_of(host_text(h)) == Some(h),
{
    let t = host_text(h);
    match h {
        Host::V4(a, b, c, d) => {
            lemma_v4_round_trip(a, b, c, d);
            lemma_first_index(t, ':', t.len() as int);
        },
        Host::V6(..) => {
            lemma_v6_round_trip(groups(h));
        },
    }
}

/// The text of a host alone is no whole address, and it is not the word
/// `localhost`.
pub proof fn lemma_host_alone(h: Host)
    ensures
        combined_of(host_text(h)) is None,
        host_text(h) != "localhost"@,
{
    reveal_strlit("localhost");
    assert("localhost"@[0] == 'l');
    let t = host_text(h);
    match h {
        Host::V4(a, b, c, d) => {
            lemma_v4_round_trip(a, b, c, d);
            lemma_split_whole(t, ':');
        },
        Host::V6(..) => {
            lemma_v6_round_trip(groups(h));
            let k = first_index(t, ':') as int;
            let first = t.take(k);
            assert(split(t, ':')[0] == first);
            assert forall|i: int| 0 <= i < first.len() implies first[i] != '.' by {
                assert(first[i] == t[i]);
            }
            lemma_split_whole(first, '.');
        },
    }
}

/// Whether `s` holds nothing but what the text of an IPv6 host may hold:
/// hexadecimal digits, colons and dots.
pub open spec fn host_chars(s: Seq<char>) -> bool {
    forall|i: int|
        0 <= i < s.len() ==> is_hex_digit(#[trigger] s[i]) || s[i] == ':' || s[i] == '.'
}

/// Behind the text of a host, the text of a scope names that scope, and the
/// two together hold no closing bracket.
pub proof fn lemma_scope_round_trip(t: Seq<char>, scope: u32)
    requires
        host_chars(t),
    ensures
        (t + scope_text(scope)).take(first_index(t + scope_text(scope), '%') as int) == t,
        inner_scope(t + scope_text(scope)) == Some(scope),
        forall|i: int|
            0 <= i < (t + scope_text(scope)).len() ==> (t + scope_text(scope))[i] != ']',
{
    let z = scope_text(scope);
    let inner = t + z;
    let digits = decimal(scope as nat);
    lemma_decimal(scope as nat);
    assert forall|i: int| 0 <= i < inner.len() implies inner[i] != ']' && (i < t.len()
        ==> inner[i] != '%') by {
        if i < t.len() {
            assert(inner[i] == t[i]);
            assert(is_hex_digit(t[i]) || t[i] == ':' || t[i] == '.');
        } else if i > t.len() {
            assert(inner[i] == digits[i - t.len() - 1]);
            assert(is_digit(digits[i - t.len() - 1]));
        }
    }
    lemma_first_index(inner, '%', t.len() as int);
    assert(inner.take(t.len() as int) =~= t);
    if scope != 0 {
        assert(inner.skip(t.len() as int + 1) =~= digits);
    }
}

/// A text in brackets with a colon and a text behind them falls into these
/// two texts again.
pub proof fn lemma_brackets(inner: Seq<char>, p: Seq<char>)
    requires
        forall|i: int| 0 <= i < inner.len() ==> inner[i] != ']',
    ensures
        first_index(seq!['['] + inner + seq![']', ':'] + p, ']') == 1 + inner.len(),
        (seq!['['] + inner + seq![']', ':'] + p).subrange(1, 1 + inner.len() as int) == inner,
        (seq!['['] + inner + seq![']', ':'] + p).skip(2 + inner.len() as int).len() > 0,
        (seq!['['] + inner + seq![']', ':'] + p).skip(2 + inner.len() as int)[0] == ':',
        (seq!['['] + inner + seq![']', ':'] + p).skip(2 + inner.len() as int).skip(1) == p,
{
    let s = seq!['['] + inner + seq![']', ':'] + p;
    let close = 1 + inner.len();
    assert forall|i: int| 0 <= i < close implies s[i] != ']' by {
        if i >= 1 {
            assert(s[i] == inner[i - 1]);
        }
    }
    assert(s[close as int] == ']');
    lemma_first_index(s, ']', close as int);
    assert(s.subrange(1, close as int) =~= inner);
    let rest = s.skip(close as int + 1);
    assert(rest =~= seq![':'] + p);
    assert(rest.skip(1) =~= p);
}

/// The text of an IPv4 address names that address.
pub proof fn lemma_plain_round_trip(a: Address)
    requires
        a.host is V4,
        a.scope == 0,
    ensures
        plain_of(address_text(a)) == Some(a),
        address_text(a).len() > 0,
        address_text(a)[0] != '[',
{
    let p = decimal(a.port as nat);
    let t = host_text(a.host);
    let s = address_text(a);
    match a.host {
        Host::V4(o0, o1, o2, o3) => {
            lemma_v4_round_trip(o0, o1, o2, o3);
        },
        _ => {},
    }
    law_port_round_trip(a.port);
    lemma_decimal_plain(a.port as nat);
    assert forall|i: int| 0 <= i < p.len() implies p[i] != ':' by {
        assert(is_digit(p[i]));
    }
    lemma_split_first(t, p, ':');
    lemma_split_whole(p, ':');
    assert(split(s, ':') =~= seq![t, p]);
    assert(s[0] == t[0]);
}

/// The text of an IPv6 address names that address.
pub proof fn lemma_bracketed_round_trip(a: Address)
    requires
        a.host is V6,
    ensures
        bracketed_of(address_text(a)) == Some(a),
        address_text(a).len() > 0,
        address_text(a)[0] == '[',
{
    let p = decimal(a.port as nat);
    let t = host_text(a.host);
    let s = address_text(a);
    let inner = t + scope_text(a.scope);
    assert(v6_of(t) == Some(a.host) && host_chars(t)) by {
        lemma_v6_round_trip(groups(a.host));
    }
    assert(port_of(p) == Some(a.port)) by {
        law_port_round_trip(a.port);
    }
    lemma_scope_round_trip(t, a.scope);
    lemma_brackets(inner, p);
    assert(s =~= seq!['['] + inner + seq![']', ':'] + p);
    assert(s[0] == '[');
    let close = first_index(s, ']') as int;
    assert(close == 1 + inner.len());
    assert(s.subrange(1, close) == inner);
    assert(s.skip(close + 1).skip(1) == p);
}

/// The text of an address names that address.
pub proof fn law_address_round_trip(a: Address)
    requires
        a.wf(),
    ensures
        combined_of(address_text(a)) == Some(a),
{
    if a.host is V4 {
        lemma_plain_round_trip(a);
    } else {
        lemma_bracketed_round_trip(a);
    }
}

/// An `add` command whose first word is the text of an address names that
/// address, whatever follows.
pub proof fn law_one_word_destination(a: Address, words: Seq<Seq<char>>)
    requires
        a.wf(),
        words.len() >= 1,
        words[0] == address_text(a),
    ensures
        destination_of(words) == Some(a),
{
    law_address_round_trip(a);
}

/// An `add` command whose first word is the text of a host, and whose second is
/// the numeral of a port, names that host and that port.
pub proof fn law_two_word_destination(h: Host, p: u16, words: Seq<Seq<char>>)
    requires
        words.len() >= 2,
        words[0] == host_text(h),
        words[1] == decimal(p as nat),
    ensures
        destination_of(words) == Some(Address { host: h, port: p, scope: 0 }),
{
    law_host_round_trip(h);
    law_port_round_trip(p);
    lemma_host_alone(h);
}

/// An `add` command of the word `localhost` and the numeral of a port names
/// that port on 127.0.0.1.
pub proof fn law_localhost_destination(p: u16, words: Seq<Seq<char>>)
    requires
        words.len() >= 2,
        words[0] == "localhost"@,
        words[1] == decimal(p as nat),
    ensures
        destination_of(words) == Some(Address { host: Host::V4(127, 0, 0, 1), port: p, scope: 0 }),
{
    reveal_strlit("localhost");
    law_port_round_trip(p);
    lemma_split_whole("localhost"@, ':');
    assert("localhost"@[0] == 'l');
}

/// A word that holds no colon is no whole address.
pub proof fn lemma_no_colon(s: Seq<char>)
    requires
        forall|i: int| 0 <= i < s.len() ==> s[i] != ':',
    ensures
        combined_of(s) is None,
{
    lemma_split_whole(s, ':');
    if s.len() > 0 && s[0] == '[' {
        let close = first_index(s, ']') as int;
        if close < s.len() {
            let rest = s.skip(close + 1);
            if rest.len() > 0 {
                assert(rest[0] == s[close + 1]);
            }
        }
    }
}

/// An `add` command names no destination where no port follows the host: the
/// first word holds no colon or is the text of a host, and there is no second
/// word or it names no port.
pub proof fn law_missing_port(words: Seq<Seq<char>>)
    requires
        words.len() >= 1,
        (forall|i: int| 0 <= i < words[0].len() ==> words[0][i] != ':') || (exists|h: Host|
            words[0] == host_text(h)),
        words.len() == 1 || port_word(words[1]) is None,
    ensures
        destination_of(words) is None,
{
    if forall|i: int| 0 <= i < words[0].len() ==> words[0][i] != ':' {
        lemma_no_colon(words[0]);
    } else {
        let h = choose|h: Host| words[0] == host_text(h);
        lemma_host_alone(h);
    }
}

/// Two texts without whitespace make one without whitespace.
pub proof fn lemma_no_whitespace_concat(a: Seq<char>, b: Seq<char>)
    requires
        no_whitespace(a),
        no_whitespace(b),
    ensures
        no_whitespace(a + b),
{
    assert forall|i: int| 0 <= i < (a + b).len() implies !is_whitespace(#[trigger] (a + b)[i]) by {
        if i < a.len() {
            assert((a + b)[i] == a[i]);
        } else {
            assert((a + b)[i] == b[i - a.len()]);
        }
    }
}

/// A decimal numeral is not empty and holds no whitespace.
pub proof fn lemma_decimal_word(n: nat)
    ensures
        decimal(n).len() > 0,
        no_whitespace(decimal(n)),
{
    lemma_decimal(n);
    assert forall|i: int| 0 <= i < decimal(n).len() implies !is_whitespace(
        #[trigger] decimal(n)[i],
    ) by {
        assert(is_digit(decimal(n)[i]));
    }
}

/// The text of a host is not empty and holds no whitespace.
pub proof fn lemma_host_word(h: Host)
    ensures
        host_text(h).len() > 0,
        no_whitespace(host_text(h)),
{
    let t = host_text(h);
    match h {
        Host::V4(a, b, c, d) => {
            lemma_dotted_chars(a, b, c, d);
            assert forall|i: int| 0 <= i < t.len() implies !is_whitespace(#[trigger] t[i]) by {
                assert(is_digit(t[i]) || t[i] == '.');
            }
        },
        Host::V6(..) => {
            lemma_v6_round_trip(groups(h));
            assert forall|i: int| 0 <= i < t.len() implies !is_whitespace(#[trigger] t[i]) by {
                assert(is_hex_digit(t[i]) || t[i] == ':' || t[i] == '.');
            }
        },
    }
}

/// The text of an address is not empty and holds no whitespace.
pub proof fn lemma_address_word(a: Address)
    ensures
        address_text(a).len() > 0,
        no_whitespace(address_text(a)),
{
    lemma_host_word(a.host);
    lemma_decimal_word(a.port as nat);
    lemma_decimal_word(a.scope as nat);
    let t = host_text(a.host);
    let p = decimal(a.port as nat);
    match a.host {
        Host::V4(..) => {
            lemma_no_whitespace_concat(t, seq![':']);
            lemma_no_whitespace_concat(t + seq![':'], p);
        },
        Host::V6(..) => {
            let z = scope_text(a.scope);
            if a.scope != 0 {
                lemma_no_whitespace_concat(seq!['%'], decimal(a.scope as nat));
            }
            lemma_no_whitespace_concat(seq!['['], t);
            lemma_no_whitespace_concat(seq!['['] + t, z);
            lemma_no_whitespace_concat(seq!['['] + t + z, seq![']', ':']);
            lemma_no_whitespace_concat(seq!['['] + t + z + seq![']', ':'], p);
        },
    }
}

} // verus!
