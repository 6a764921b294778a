//! The text of an IPv6 host: eight groups of sixteen bits in hexadecimal, where
//! `::` may stand for a run of zero groups and the last two groups may be
//! written as a dotted IPv4 host.

use crate::address::{
    dotted, lemma_dotted_chars, lemma_v4_round_trip, parse_v4, push_dotted, v4_of, Host,
};
use crate::decimal::is_digit;
use crate::hex::{group_of, hex, is_hex_digit, lemma_hex, parse_group, push_hex};
use crate::text::{
    copy_range, first_index, lemma_first_index_is_first, lemma_split_first, lemma_split_last,
    lemma_split_whole, rows_view, split, split_chars,
};
use vstd::prelude::*;

verus! {

/// The position of the first `::` in `s`, or the length of `s` where it holds
/// none.
pub open spec fn double_colon(s: Seq<char>) -> nat
    decreases s.len(),
{
    if s.len() < 2 {
        s.len()
    } else if s[0] == ':' && s[1] == ':' {
        0
    } else {
        1 + double_colon(s.skip(1))
    }
}

/// `double_colon` is the one position before which no `::` starts and at which
/// `s` ends or a `::` starts.
pub proof fn lemma_double_colon(s: Seq<char>, k: int)
    requires
        0 <= k <= s.len(),
        forall|i: int|
            0 <= i < k && i + 1 < s.len() ==> !(#[trigger] s[i] == ':' && s[i + 1] == ':'),
        k == s.len() || (k + 1 < s.len() && s[k] == ':' && s[k + 1] == ':'),
    ensures
        double_colon(s) == k,
    decreases k,
{
    if k > 0 && s.len() >= 2 {
        let rest = s.skip(1);
        assert forall|i: int| 0 <= i < k - 1 && i + 1 < rest.len() implies !(#[trigger] rest[i]
            == ':' && rest[i + 1] == ':') by {
            assert(rest[i] == s[i + 1] && rest[i + 1] == s[i + 2]);
            assert(!(s[i + 1] == ':' && s[i + 2] == ':'));
        }
        lemma_double_colon(rest, k - 1);
    }
}

/// The parts of `s` between its colons; an empty text has no parts.
pub open spec fn parts_of(s: Seq<char>) -> Seq<Seq<char>> {
    if s.len() == 0 {
        Seq::empty()
    } else {
        split(s, ':')
    }
}

/// Whether each of `parts` names a group.
pub open spec fn all_groups(parts: Seq<Seq<char>>) -> bool {
    forall|i: int| 0 <= i < parts.len() ==> group_of(#[trigger] parts[i]) is Some
}

/// The groups that `parts` name, in order.
pub open spec fn groups_of(parts: Seq<Seq<char>>) -> Seq<u16> {
    Seq::new(parts.len(), |i: int| group_of(parts[i])->0)
}

/// The two groups that the four octets of an IPv4 host make.
pub open spec fn pair_of(h: Host) -> Seq<u16> {
    match h {
        Host::V4(a, b, c, d) => seq![(a * 256 + b) as u16, (c * 256 + d) as u16],
        _ => Seq::empty(),
    }
}

/// The groups before a `::`: each part names one.
pub open spec fn head_of(parts: Seq<Seq<char>>) -> Option<Seq<u16>> {
    if all_groups(parts) {
        Some(groups_of(parts))
    } else {
        None
    }
}

/// The groups at the end of an address: each part names one, but the last
/// part may be a dotted IPv4 host, which makes two.
pub open spec fn tail_of(parts: Seq<Seq<char>>) -> Option<Seq<u16>> {
    if parts.len() == 0 {
        Some(Seq::empty())
    } else if !all_groups(parts.drop_last()) {
        None
    } else if group_of(parts.last()) is Some {
        Some(groups_of(parts))
    } else if v4_of(parts.last()) is Some {
        Some(groups_of(parts.drop_last()) + pair_of(v4_of(parts.last())->0))
    } else {
        None
    }
}

/// So many zero groups.
pub open spec fn zeros(n: int) -> Seq<u16> {
    Seq::new(n as nat, |i: int| 0u16)
}

/// The eight groups that `s` names. Without `::` the text holds all eight.
/// With `::` it holds at most seven, before and behind it, and `::` stands for
/// the zero groups that are missing; a dotted IPv4 host may not stand before it.
pub open spec fn v6_groups(s: Seq<char>) -> Option<Seq<u16>> {
    let k = double_colon(s) as int;
    if k >= s.len() {
        if tail_of(split(s, ':')) is Some && tail_of(split(s, ':'))->0.len() == 8 {
            tail_of(split(s, ':'))
        } else {
            None
        }
    } else {
        let head = head_of(parts_of(s.take(k)));
        let tail = tail_of(parts_of(s.skip(k + 2)));
        if head is Some && tail is Some && head->0.len() + tail->0.len() <= 7 {
            Some(head->0 + zeros(8 - head->0.len() - tail->0.len()) + tail->0)
        } else {
            None
        }
    }
}

/// The IPv6 host that `s` names.
pub open spec fn v6_of(s: Seq<char>) -> Option<Host> {
    match v6_groups(s) {
        Some(g) => Some(Host::V6(g[0], g[1], g[2], g[3], g[4], g[5], g[6], g[7])),
        None => None,
    }
}

/// The groups written as hexadecimal numerals with a colon between each two.
pub open spec fn join(groups: Seq<u16>) -> Seq<char>
    decreases groups.len(),
{
    if groups.len() == 0 {
        Seq::empty()
    } else if groups.len() == 1 {
        hex(groups[0] as nat)
    } else {
        join(groups.drop_last()) + seq![':'] + hex(groups.last() as nat)
    }
}

/// The number of zero groups in a row from position `i` on.
pub open spec fn run_at(groups: Seq<u16>, i: int) -> nat
    decreases groups.len() - i,
{
    if 0 <= i < groups.len() && groups[i] == 0 {
        1 + run_at(groups, i + 1)
    } else {
        0
    }
}

/// The first position up to `upto` at which the longest run of zero groups
/// starts.
pub open spec fn best_start(groups: Seq<u16>, upto: int) -> int
    decreases upto,
{
    if upto <= 0 {
        0
    } else {
        let best = best_start(groups, upto - 1);
        if run_at(groups, upto) > run_at(groups, best) {
            upto
        } else {
            best
        }
    }
}

/// Whether the groups are those of an IPv4 host mapped into IPv6: five zero
/// groups and one of sixteen set bits before the host's two.
pub open spec fn is_mapped(groups: Seq<u16>) -> bool {
    groups[0] == 0 && groups[1] == 0 && groups[2] == 0 && groups[3] == 0 && groups[4] == 0
        && groups[5] == 0xffff
}

/// The text of eight groups. A mapped IPv4 host is written as `::`, the group
/// of sixteen set bits, a colon and the host's dotted text. Otherwise the first longest run of two or more zero groups is
/// written as `::`, and the other groups as hexadecimal numerals in small
/// letters with colons between them.
pub open spec fn v6_text(groups: Seq<u16>) -> Seq<char> {
    if is_mapped(groups) {
        seq![':', ':'] + hex(groups[5] as nat) + seq![':'] + dotted(
            (groups[6] / 256) as u8,
            (groups[6] % 256) as u8,
            (groups[7] / 256) as u8,
            (groups[7] % 256) as u8,
        )
    } else {
        let start = best_start(groups, 7);
        let run = run_at(groups, start) as int;
        if run > 1 {
            join(groups.take(start)) + seq![':', ':'] + join(groups.skip(start + run))
        } else {
            join(groups)
        }
    }
}

/// The position of the first `::` in `chars`, or their length.
pub(crate) fn find_double_colon(chars: &[char]) -> (k: usize)
    ensures
        k == double_colon(chars@),
        k <= chars@.len(),
        k < chars@.len() ==> k + 2 <= chars@.len(),
{
    let n: usize = chars.len();
    if n < 2 {
        return n;
    }
    let mut k: usize = 0;
    while k + 1 < n && !(chars[k] == ':' && chars[k + 1] == ':')
        invariant
            n == chars@.len(),
            n >= 2,
            k + 1 <= n,
            forall|i: int|
                0 <= i < k && i + 1 < n ==> !(#[trigger] chars@[i] == ':' && chars@[i + 1]
                    == ':'),
        decreases n - k,
    {
        k += 1;
    }
    if k + 1 >= n {
        proof {
            lemma_double_colon(chars@, n as int);
        }
        n
    } else {
        proof {
            lemma_double_colon(chars@, k as int);
        }
        k
    }
}

/// The groups that `parts` name, where each names one.
pub(crate) fn parse_head(parts: &[Vec<char>]) -> (groups: Option<Vec<u16>>)
    ensures
        match groups {
            Some(g) => head_of(rows_view(parts@)) == Some(g@),
            None => head_of(rows_view(parts@)) is None,
        },
{
    let ghost rows = rows_view(parts@);
    let mut groups: Vec<u16> = Vec::new();
    let mut i: usize = 0;
    while i < parts.len()
        invariant
            i <= parts@.len(),
            rows == rows_view(parts@),
            groups@.len() == i,
            forall|j: int| 0 <= j < i ==> group_of(#[trigger] rows[j]) == Some(groups@[j]),
        decreases parts@.len() - i,
    {
        match parse_group(parts[i].as_slice()) {
            Some(g) => groups.push(g),
            None => {
                proof {
                    assert(group_of(rows[i as int]) is None);
                }
                return None;
            },
        }
        i += 1;
    }
    proof {
        assert(all_groups(rows));
        assert(groups@ =~= groups_of(rows));
    }
    Some(groups)
}

/// The groups that `parts` name at the end of an address.
pub(crate) fn parse_tail(parts: &[Vec<char>]) -> (groups: Option<Vec<u16>>)
    ensures
        match groups {
            Some(g) => tail_of(rows_view(parts@)) == Some(g@),
            None => tail_of(rows_view(parts@)) is None,
        },
{
    let n: usize = parts.len();
    if n == 0 {
        let groups: Vec<u16> = Vec::new();
        assert(groups@ =~= Seq::<u16>::empty());
        return Some(groups);
    }
    let ghost rows = rows_view(parts@);
    let front = vstd::slice::slice_subrange(parts, 0, n - 1);
    proof {
        assert(rows_view(front@) =~= rows.drop_last());
        assert(rows.last() == parts@[n - 1]@);
    }
    let mut groups = match parse_head(front) {
        Some(groups) => groups,
        None => {
            return None;
        },
    };
    match parse_group(parts[n - 1].as_slice()) {
        Some(g) => {
            groups.push(g);
            proof {
                assert forall|i: int| 0 <= i < rows.len() implies group_of(
                    #[trigger] rows[i],
                ) is Some by {
                    if i < n - 1 {
                        assert(rows.drop_last()[i] == rows[i]);
                    }
                }
                assert forall|i: int| 0 <= i < n - 1 implies groups_of(rows.drop_last())[i]
                    == groups_of(rows)[i] by {
                    assert(rows.drop_last()[i] == rows[i]);
                }
                assert(groups@ =~= groups_of(rows));
            }
            Some(groups)
        },
        None => match parse_v4(parts[n - 1].as_slice()) {
            Some(Host::V4(a, b, c, d)) => {
                groups.push((a as u16) * 256 + (b as u16));
                groups.push((c as u16) * 256 + (d as u16));
                proof {
                    assert(groups@ =~= groups_of(rows.drop_last()) + pair_of(Host::V4(a, b, c, d)));
                }
                Some(groups)
            },
            _ => None,
        },
    }
}

/// The parts of `chars` between its colons; none where `chars` is empty.
fn parts_chars(chars: &[char]) -> (parts: Vec<Vec<char>>)
    ensures
        rows_view(parts@) == parts_of(chars@),
{
    if chars.len() == 0 {
        let parts: Vec<Vec<char>> = Vec::new();
        assert(rows_view(parts@) =~= Seq::<Seq<char>>::empty());
        parts
    } else {
        split_chars(chars, ':')
    }
}

/// The eight groups that `chars` name, if they name an IPv6 host.
pub(crate) fn parse_groups(chars: &[char]) -> (groups: Option<Vec<u16>>)
    ensures
        match groups {
            Some(g) => v6_groups(chars@) == Some(g@) && g@.len() == 8,
            None => v6_groups(chars@) is None,
        },
{
    let n: usize = chars.len();
    let k: usize = find_double_colon(chars);
    if k >= n {
        let parts = split_chars(chars, ':');
        match parse_tail(parts.as_slice()) {
            Some(groups) => {
                if groups.len() == 8 {
                    Some(groups)
                } else {
                    None
                }
            },
            None => None,
        }
    } else {
        let before = copy_range(chars, 0, k);
        let behind = copy_range(chars, k + 2, n);
        proof {
            assert(before@ =~= chars@.take(k as int));
            assert(behind@ =~= chars@.skip(k + 2));
        }
        let head_parts = parts_chars(before.as_slice());
        let tail_parts = parts_chars(behind.as_slice());
        let head = match parse_head(head_parts.as_slice()) {
            Some(head) => head,
            None => {
                return None;
            },
        };
        let tail = match parse_tail(tail_parts.as_slice()) {
            Some(tail) => tail,
            None => {
                return None;
            },
        };
        if head.len() > 7 || tail.len() > 7 - head.len() {
            return None;
        }
        let missing: usize = 8 - head.len() - tail.len();
        let mut groups: Vec<u16> = head;
        let ghost h = groups@;
        let mut i: usize = 0;
        while i < missing
            invariant
                i <= missing,
                groups@ == h + zeros(i as int),
            decreases missing - i,
        {
            groups.push(0);
            i += 1;
            assert(groups@ =~= h + zeros(i as int));
        }
        let mut j: usize = 0;
        while j < tail.len()
            invariant
                j <= tail@.len(),
                groups@ == h + zeros(missing as int) + tail@.take(j as int),
            decreases tail@.len() - j,
        {
            groups.push(tail[j]);
            j += 1;
            assert(groups@ =~= h + zeros(missing as int) + tail@.take(j as int));
        }
        proof {
            assert(tail@.take(tail@.len() as int) =~= tail@);
        }
        Some(groups)
    }
}

/// The IPv6 host that `chars` name, if they name one.
pub(crate) fn parse_v6(chars: &[char]) -> (host: Option<Host>)
    ensures
        host == v6_of(chars@),
{
    match parse_groups(chars) {
        Some(g) => Some(Host::V6(g[0], g[1], g[2], g[3], g[4], g[5], g[6], g[7])),
        None => None,
    }
}

/// Appends the numerals of the groups from `from` up to `to`, with a colon
/// between each two.
fn push_join(out: &mut Vec<char>, groups: &Vec<u16>, from: usize, to: usize)
    requires
        from <= to <= groups@.len(),
    ensures
        final(out)@ == old(out)@ + join(groups@.subrange(from as int, to as int)),
{
    let mut i: usize = from;
    proof {
        assert(groups@.subrange(from as int, from as int) =~= Seq::<u16>::empty());
        assert(out@ =~= old(out)@ + join(groups@.subrange(from as int, i as int)));
    }
    while i < to
        invariant
            from <= i <= to <= groups@.len(),
            out@ == old(out)@ + join(groups@.subrange(from as int, i as int)),
        decreases to - i,
    {
        let ghost done = groups@.subrange(from as int, i as int);
        let ghost next = groups@.subrange(from as int, i + 1);
        if i > from {
            out.push(':');
        }
        push_hex(out, groups[i]);
        proof {
            assert(next.drop_last() =~= done);
            assert(next.last() == groups@[i as int]);
            assert(out@ =~= old(out)@ + join(next));
        }
        i += 1;
    }
}

/// The number of zero groups in a row from position `i` on.
fn run_len(groups: &Vec<u16>, i: usize) -> (run: usize)
    requires
        i <= groups@.len(),
    ensures
        run == run_at(groups@, i as int),
        i + run <= groups@.len(),
{
    let mut j: usize = i;
    while j < groups.len() && groups[j] == 0
        invariant
            i <= j <= groups@.len(),
            run_at(groups@, i as int) == (j - i) + run_at(groups@, j as int),
        decreases groups@.len() - j,
    {
        j += 1;
    }
    j - i
}

/// Appends the text of the eight `groups` to `out`.
pub(crate) fn push_v6(out: &mut Vec<char>, groups: &Vec<u16>)
    requires
        groups@.len() == 8,
    ensures
        final(out)@ == old(out)@ + v6_text(groups@),
{
    if groups[0] == 0 && groups[1] == 0 && groups[2] == 0 && groups[3] == 0 && groups[4] == 0
        && groups[5] == 0xffff {
        out.push(':');
        out.push(':');
        push_hex(out, groups[5]);
        out.push(':');
        push_dotted(
            out,
            (groups[6] / 256) as u8,
            (groups[6] % 256) as u8,
            (groups[7] / 256) as u8,
            (groups[7] % 256) as u8,
        );
        assert(out@ =~= old(out)@ + v6_text(groups@));
        return ;
    }
    let mut start: usize = 0;
    let mut run: usize = run_len(groups, 0);
    let mut upto: usize = 1;
    while upto < 8
        invariant
            1 <= upto <= 8,
            groups@.len() == 8,
            start < upto,
            start == best_start(groups@, upto - 1),
            run == run_at(groups@, start as int),
            start + run <= 8,
        decreases 8 - upto,
    {
        let here: usize = run_len(groups, upto);
        if here > run {
            start = upto;
            run = here;
        }
        upto += 1;
    }
    if run > 1 {
        push_join(out, groups, 0, start);
        out.push(':');
        out.push(':');
        push_join(out, groups, start + run, 8);
        proof {
            assert(groups@.subrange(0, start as int) =~= groups@.take(start as int));
            assert(groups@.subrange(start + run, 8) =~= groups@.skip(start + run));
            assert(out@ =~= old(out)@ + v6_text(groups@));
        }
    } else {
        push_join(out, groups, 0, 8);
        proof {
            assert(groups@.subrange(0, 8) =~= groups@);
            assert(out@ =~= old(out)@ + v6_text(groups@));
        }
    }
}

/// Whether `s` holds no two colons in a row.
pub open spec fn no_double_colon(s: Seq<char>) -> bool {
    forall|i: int| 0 <= i && i + 1 < s.len() ==> !(#[trigger] s[i] == ':' && s[i + 1] == ':')
}

/// Whether `s` holds hexadecimal digits and colons only.
pub open spec fn group_chars(s: Seq<char>) -> bool {
    forall|i: int| 0 <= i < s.len() ==> is_hex_digit(#[trigger] s[i]) || s[i] == ':'
}

/// The hexadecimal numerals of the groups, in order.
pub open spec fn numerals(groups: Seq<u16>) -> Seq<Seq<char>> {
    Seq::new(groups.len(), |i: int| hex(groups[i] as nat))
}

/// A text that holds `c` holds a first one.
pub proof fn lemma_holds(s: Seq<char>, c: char, k: int)
    requires
        0 <= k < s.len(),
        s[k] == c,
    ensures
        first_index(s, c) < s.len(),
{
    lemma_first_index_is_first(s, c);
}

/// The numerals of groups name those groups, before a `::` and at the end of
/// an address.
pub proof fn lemma_numerals(groups: Seq<u16>)
    ensures
        head_of(numerals(groups)) == Some(groups),
        tail_of(numerals(groups)) == Some(groups),
{
    let parts = numerals(groups);
    assert forall|i: int| 0 <= i < parts.len() implies group_of(#[trigger] parts[i]) == Some(
        groups[i],
    ) by {
        lemma_hex(groups[i] as nat);
    }
    assert(groups_of(parts) =~= groups);
    if parts.len() > 0 {
        assert forall|i: int| 0 <= i < parts.drop_last().len() implies group_of(
            #[trigger] parts.drop_last()[i],
        ) is Some by {
            assert(parts.drop_last()[i] == parts[i]);
        }
        assert(group_of(parts[parts.len() - 1]) is Some);
    } else {
        assert(groups =~= Seq::<u16>::empty());
    }
}

/// The joined numerals of one group or more: their parts between the colons
/// are the numerals; the text starts and ends with a digit, holds digits and
/// colons only, and never two colons in a row.
pub proof fn lemma_join(groups: Seq<u16>)
    requires
        groups.len() >= 1,
    ensures
        split(join(groups), ':') == numerals(groups),
        parts_of(join(groups)) == numerals(groups),
        join(groups).len() >= 1,
        is_hex_digit(join(groups)[0]),
        is_hex_digit(join(groups).last()),
        group_chars(join(groups)),
        no_double_colon(join(groups)),
        groups.len() >= 2 ==> first_index(join(groups), ':') < join(groups).len(),
    decreases groups.len(),
{
    let last = hex(groups.last() as nat);
    lemma_hex(groups.last() as nat);
    assert forall|i: int| 0 <= i < last.len() implies last[i] != ':' by {
        assert(is_hex_digit(last[i]));
    }
    if groups.len() == 1 {
        lemma_split_whole(last, ':');
        assert(seq![last] =~= numerals(groups));
        assert(is_hex_digit(last[0]));
        assert(is_hex_digit(last[last.len() - 1]));
    } else {
        let front = groups.drop_last();
        lemma_join(front);
        let a = join(front);
        let t = join(groups);
        lemma_split_last(a, last, ':');
        assert(numerals(front).push(last) =~= numerals(groups));
        assert(t[0] == a[0]);
        assert(t.last() == last[last.len() - 1]);
        assert(is_hex_digit(last[last.len() - 1]));
        assert forall|i: int| 0 <= i < t.len() implies is_hex_digit(#[trigger] t[i]) || t[i]
            == ':' by {
            if i < a.len() {
                assert(t[i] == a[i]);
            } else if i > a.len() {
                assert(t[i] == last[i - a.len() - 1]);
                assert(is_hex_digit(last[i - a.len() - 1]));
            }
        }
        assert forall|i: int| 0 <= i && i + 1 < t.len() implies !(#[trigger] t[i] == ':' && t[i
            + 1] == ':') by {
            if i + 1 < a.len() {
                assert(t[i] == a[i] && t[i + 1] == a[i + 1]);
                assert(!(a[i] == ':' && a[i + 1] == ':'));
            } else if i + 1 == a.len() {
                assert(t[i] == a[a.len() - 1]);
            } else if i == a.len() {
                assert(t[i + 1] == last[0]);
                assert(is_hex_digit(last[0]));
            } else {
                assert(t[i] == last[i - a.len() - 1]);
                assert(is_hex_digit(last[i - a.len() - 1]));
            }
        }
        assert(t[a.len() as int] == ':');
        lemma_holds(t, ':', a.len() as int);
    }
}

/// A run of zero groups ends within the groups, and holds zero groups only.
pub proof fn lemma_run(groups: Seq<u16>, i: int)
    requires
        0 <= i <= groups.len(),
    ensures
        i + run_at(groups, i) <= groups.len(),
        forall|j: int| i <= j < i + run_at(groups, i) ==> groups[j] == 0,
    decreases groups.len() - i,
{
    if i < groups.len() && groups[i] == 0 {
        lemma_run(groups, i + 1);
    }
}

/// The best start lies within the positions that were looked at.
pub proof fn lemma_best_start(groups: Seq<u16>, upto: int)
    requires
        0 <= upto,
    ensures
        0 <= best_start(groups, upto) <= upto,
    decreases upto,
{
    if upto > 0 {
        lemma_best_start(groups, upto - 1);
    }
}

/// The text of eight groups names those groups again. It is not empty, starts
/// with a hexadecimal digit or a colon, holds a colon, and holds nothing but
/// hexadecimal digits, colons and dots, with no dot before the first colon.
pub proof fn lemma_v6_round_trip(groups: Seq<u16>)
    requires
        groups.len() == 8,
    ensures
        v6_groups(v6_text(groups)) == Some(groups),
        v6_text(groups).len() > 0,
        is_hex_digit(v6_text(groups)[0]) || v6_text(groups)[0] == ':',
        first_index(v6_text(groups), ':') < v6_text(groups).len(),
        forall|i: int|
            0 <= i < v6_text(groups).len() ==> is_hex_digit(#[trigger] v6_text(groups)[i])
                || v6_text(groups)[i] == ':' || v6_text(groups)[i] == '.',
        forall|i: int|
            0 <= i < first_index(v6_text(groups), ':') ==> #[trigger] v6_text(groups)[i] != '.',
{
    let t = v6_text(groups);
    if is_mapped(groups) {
        lemma_mapped_round_trip(groups);
    } else {
        let start = best_start(groups, 7);
        lemma_best_start(groups, 7);
        lemma_run(groups, start);
        let run = run_at(groups, start) as int;
        if run > 1 {
            let before = groups.take(start);
            let behind = groups.skip(start + run);
            let h = join(before);
            let b = join(behind);
            let hl = h.len() as int;
            if before.len() > 0 {
                lemma_join(before);
            }
            if behind.len() > 0 {
                lemma_join(behind);
            }
            lemma_numerals(before);
            lemma_numerals(behind);
            assert(before.len() == 0 ==> numerals(before) =~= Seq::<Seq<char>>::empty());
            assert(behind.len() == 0 ==> numerals(behind) =~= Seq::<Seq<char>>::empty());
            assert(t == h + seq![':', ':'] + b);
            assert(t[hl] == ':' && t[hl + 1] == ':');
            assert forall|i: int| 0 <= i < h.len() && i + 1 < t.len() implies !(#[trigger] t[i]
                == ':' && t[i + 1] == ':') by {
                if i + 1 < h.len() {
                    assert(t[i] == h[i] && t[i + 1] == h[i + 1]);
                    assert(!(h[i] == ':' && h[i + 1] == ':'));
                } else {
                    assert(t[i] == h[h.len() - 1]);
                }
            }
            lemma_double_colon(t, h.len() as int);
            assert(t.take(h.len() as int) =~= h);
            assert(t.skip(hl + 2) =~= b);
            assert(before + zeros(run) + behind =~= groups);
            lemma_holds(t, ':', h.len() as int);
            assert forall|i: int| 0 <= i < t.len() implies is_hex_digit(#[trigger] t[i]) || t[i]
                == ':' by {
                if i < h.len() {
                    assert(t[i] == h[i]);
                } else if i >= h.len() + 2 {
                    assert(t[i] == b[i - h.len() - 2]);
                }
            }
            if h.len() > 0 {
                assert(t[0] == h[0]);
            }
        } else {
            lemma_join(groups);
            lemma_numerals(groups);
            lemma_double_colon(t, t.len() as int);
        }
    }
}

/// The text of a mapped IPv4 host names its groups again.
proof fn lemma_mapped_round_trip(groups: Seq<u16>)
    requires
        groups.len() == 8,
        is_mapped(groups),
    ensures
        v6_groups(v6_text(groups)) == Some(groups),
        v6_text(groups).len() > 0,
        v6_text(groups)[0] == ':',
        first_index(v6_text(groups), ':') == 0,
        forall|i: int|
            0 <= i < v6_text(groups).len() ==> is_hex_digit(#[trigger] v6_text(groups)[i])
                || v6_text(groups)[i] == ':' || v6_text(groups)[i] == '.',
{
    let t = v6_text(groups);
    let a = (groups[6] / 256) as u8;
    let b = (groups[6] % 256) as u8;
    let c = (groups[7] / 256) as u8;
    let d = (groups[7] % 256) as u8;
    let text = dotted(a, b, c, d);
    let mark = hex(groups[5] as nat);
    lemma_v4_round_trip(a, b, c, d);
    lemma_dotted_chars(a, b, c, d);
    lemma_hex(groups[5] as nat);
    assert forall|i: int| 0 <= i < mark.len() implies mark[i] != ':' by {
        assert(is_hex_digit(mark[i]));
    }
    assert(t == seq![':', ':'] + mark + seq![':'] + text);
    assert(t[0] == ':' && t[1] == ':');
    lemma_double_colon(t, 0);
    assert(t.take(0) =~= Seq::<char>::empty());
    assert(groups_of(Seq::<Seq<char>>::empty()) =~= Seq::<u16>::empty());
    let behind = t.skip(2);
    assert(behind =~= mark + seq![':'] + text);
    lemma_split_first(mark, text, ':');
    lemma_split_whole(text, ':');
    let parts = split(behind, ':');
    assert(parts =~= seq![mark, text]);
    assert(parts.drop_last() =~= seq![mark]);
    assert(group_of(mark) == Some(groups[5]));
    assert(group_of(text) is None);
    assert(groups_of(parts.drop_last()) =~= seq![groups[5]]);
    assert(pair_of(Host::V4(a, b, c, d)) =~= seq![groups[6], groups[7]]);
    assert(tail_of(parts) == Some(seq![groups[5]] + seq![groups[6], groups[7]]));
    assert(Seq::<u16>::empty() + zeros(5) + (seq![groups[5]] + seq![groups[6], groups[7]])
        =~= groups);
    assert forall|i: int| 0 <= i < t.len() implies is_hex_digit(#[trigger] t[i]) || t[i] == ':'
        || t[i] == '.' by {
        if 2 <= i < 2 + mark.len() {
            assert(t[i] == mark[i - 2]);
            assert(is_hex_digit(mark[i - 2]));
        } else if i > 2 + mark.len() {
            assert(t[i] == text[i - 3 - mark.len()]);
            assert(is_digit(text[i - 3 - mark.len()]) || text[i - 3 - mark.len()] == '.');
        }
    }
}

} // verus!
