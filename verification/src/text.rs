//! Text as sequences of characters: conversion between strings and character
//! vectors, splitting at a separator, lines, trimming and words.

use vstd::prelude::*;
use vstd::std_specs::iter::IteratorSpec;
use vstd::string::*;

verus! {

/// Whether `c` is whitespace: one of the characters that have the Unicode
/// `White_Space` property.
pub open spec fn is_whitespace(c: char) -> bool {
    c == ' ' || ('\t' <= c && c <= '\r') || c == '\u{85}' || c == '\u{a0}' || c == '\u{1680}' || (
    '\u{2000}' <= c && c <= '\u{200a}') || c == '\u{2028}' || c == '\u{2029}' || c == '\u{202f}'
        || c == '\u{205f}' || c == '\u{3000}'
}

/// Whether `c` is whitespace.
pub fn char_is_whitespace(c: char) -> (b: bool)
    ensures
        b == is_whitespace(c),
{
    c == ' ' || ('\t' <= c && c <= '\r') || c == '\u{85}' || c == '\u{a0}' || c == '\u{1680}' || (
    '\u{2000}' <= c && c <= '\u{200a}') || c == '\u{2028}' || c == '\u{2029}' || c == '\u{202f}'
        || c == '\u{205f}' || c == '\u{3000}'
}

/// Calls `String::push`. Nothing is proved of it: the contract claims what the
/// standard library documents, that the character is appended at the end.
#[verifier::external_body]
pub(crate) fn push_char(s: &mut String, c: char)
    ensures
        final(s)@ == old(s)@.push(c),
{
    s.push(c)
}

/// The characters of `s`, in order.
pub fn to_chars(s: &str) -> (chars: Vec<char>)
    ensures
        chars@ == s@,
{
    broadcast use {vstd::string::axiom_spec_iter, vstd::string::next_postcondition};

    let mut chars: Vec<char> = Vec::new();
    let mut rest = s.chars();
    loop
        invariant
            chars@ + rest.remaining() == s@,
        decreases s@.len() - chars@.len(),
    {
        match rest.next() {
            Some(c) => {
                chars.push(c);
                assert(chars@ + rest.remaining() =~= s@);
            },
            None => {
                assert(chars@ =~= s@);
                return chars;
            },
        }
    }
}

/// The string made of `chars`, in order.
pub fn from_chars(chars: &[char]) -> (s: String)
    ensures
        s@ == chars@,
{
    let mut s = String::new();
    let mut i: usize = 0;
    while i < chars.len()
        invariant
            i <= chars@.len(),
            s@ == chars@.take(i as int),
        decreases chars@.len() - i,
    {
        push_char(&mut s, chars[i]);
        i += 1;
        assert(s@ =~= chars@.take(i as int));
    }
    assert(chars@.take(chars@.len() as int) =~= chars@);
    s
}

/// Whether `a` and `b` hold the same characters.
pub fn same_chars(a: &[char], b: &[char]) -> (same: bool)
    ensures
        same == (a@ == b@),
{
    if a.len() != b.len() {
        return false;
    }
    let mut i: usize = 0;
    while i < a.len()
        invariant
            a@.len() == b@.len(),
            i <= a@.len(),
            forall|j: int| 0 <= j < i ==> a@[j] == b@[j],
        decreases a@.len() - i,
    {
        if a[i] != b[i] {
            return false;
        }
        i += 1;
    }
    assert(a@ =~= b@);
    true
}

/// The views of the character vectors in `rows`, in order.
pub open spec fn rows_view(rows: Seq<Vec<char>>) -> Seq<Seq<char>> {
    rows.map_values(|r: Vec<char>| r@)
}

/// The views of the strings in `items`, in order.
pub open spec fn texts_view(items: Seq<String>) -> Seq<Seq<char>> {
    items.map_values(|t: String| t@)
}

/// The position of the first `c` in `s`, or the length of `s` where it holds none.
pub open spec fn first_index(s: Seq<char>, c: char) -> nat
    decreases s.len(),
{
    if s.len() == 0 || s[0] == c {
        0
    } else {
        1 + first_index(s.skip(1), c)
    }
}

/// `first_index` is the one position before which no `c` stands and at which
/// `s` ends or holds `c`.
pub proof fn lemma_first_index(s: Seq<char>, c: char, k: int)
    requires
        0 <= k <= s.len(),
        forall|i: int| 0 <= i < k ==> s[i] != c,
        k < s.len() ==> s[k] == c,
    ensures
        first_index(s, c) == k,
    decreases k,
{
    if k > 0 {
        lemma_first_index(s.skip(1), c, k - 1);
    }
}

/// The parts of `s` between the occurrences of `sep`: one more part than there are
/// separators, each possibly empty.
pub open spec fn split(s: Seq<char>, sep: char) -> Seq<Seq<char>>
    decreases s.len(),
{
    let k = first_index(s, sep) as int;
    if k >= s.len() {
        seq![s]
    } else {
        seq![s.take(k)] + split(s.skip(k + 1), sep)
    }
}

/// A text that holds no `sep` is its own single part.
pub proof fn lemma_split_whole(a: Seq<char>, sep: char)
    requires
        forall|i: int| 0 <= i < a.len() ==> a[i] != sep,
    ensures
        split(a, sep) == seq![a],
{
    lemma_first_index(a, sep, a.len() as int);
}

/// The first part of a text ends at its first `sep`, and the other parts are
/// those of what follows it.
pub proof fn lemma_split_first(a: Seq<char>, b: Seq<char>, sep: char)
    requires
        forall|i: int| 0 <= i < a.len() ==> a[i] != sep,
    ensures
        split(a + seq![sep] + b, sep) == seq![a] + split(b, sep),
{
    let s = a + seq![sep] + b;
    lemma_first_index(s, sep, a.len() as int);
    assert(s.take(a.len() as int) =~= a);
    assert(s.skip(a.len() as int + 1) =~= b);
}

/// Before `first_index` no `c` stands, and at it `s` ends or holds `c`.
pub proof fn lemma_first_index_is_first(s: Seq<char>, c: char)
    ensures
        first_index(s, c) <= s.len(),
        forall|i: int| 0 <= i < first_index(s, c) ==> s[i] != c,
        first_index(s, c) < s.len() ==> s[first_index(s, c) as int] == c,
    decreases s.len(),
{
    if !(s.len() == 0 || s[0] == c) {
        let rest = s.skip(1);
        lemma_first_index_is_first(rest, c);
        assert forall|i: int| 0 <= i < first_index(s, c) implies s[i] != c by {
            if i > 0 {
                assert(rest[i - 1] == s[i]);
            }
        }
        if first_index(s, c) < s.len() {
            assert(rest[first_index(rest, c) as int] == s[first_index(s, c) as int]);
        }
    }
}

/// The last part of a text starts behind its last `sep`, and the other parts
/// are those of what stands before it.
pub proof fn lemma_split_last(a: Seq<char>, b: Seq<char>, sep: char)
    requires
        forall|i: int| 0 <= i < b.len() ==> b[i] != sep,
    ensures
        split(a + seq![sep] + b, sep) == split(a, sep).push(b),
    decreases a.len(),
{
    lemma_first_index_is_first(a, sep);
    lemma_split_whole(b, sep);
    let k = first_index(a, sep) as int;
    if k >= a.len() {
        lemma_split_first(a, b, sep);
        assert(seq![a] + seq![b] =~= seq![a].push(b));
    } else {
        let first = a.take(k);
        let rest = a.skip(k + 1);
        lemma_split_last(rest, b, sep);
        lemma_split_first(first, rest + seq![sep] + b, sep);
        assert(a + seq![sep] + b =~= first + seq![sep] + (rest + seq![sep] + b));
        assert(seq![first] + split(rest, sep).push(b) =~= (seq![first] + split(rest, sep)).push(
            b,
        ));
    }
}

/// `line` without a carriage return at its end.
pub open spec fn strip_cr(line: Seq<char>) -> Seq<char> {
    if line.len() > 0 && line.last() == '\r' {
        line.drop_last()
    } else {
        line
    }
}

/// The lines of `s`. A line ends at a line feed, or at a carriage return
/// directly followed by one; neither belongs to the line. The last line needs no
/// line ending, and an empty text has no lines.
pub open spec fn lines_of(s: Seq<char>) -> Seq<Seq<char>>
    decreases s.len(),
{
    if s.len() == 0 {
        Seq::empty()
    } else {
        let k = first_index(s, '\n') as int;
        if k >= s.len() {
            seq![s]
        } else {
            seq![strip_cr(s.take(k))] + lines_of(s.skip(k + 1))
        }
    }
}

/// The first position at or after `from` where `chars` holds `c`, or the length
/// of `chars`.
pub fn find_char(chars: &[char], from: usize, c: char) -> (k: usize)
    requires
        from <= chars@.len(),
    ensures
        from <= k <= chars@.len(),
        k - from == first_index(chars@.skip(from as int), c),
{
    let mut k: usize = from;
    while k < chars.len() && chars[k] != c
        invariant
            from <= k <= chars@.len(),
            forall|i: int| from <= i < k ==> chars@[i] != c,
        decreases chars@.len() - k,
    {
        k += 1;
    }
    proof {
        lemma_first_index(chars@.skip(from as int), c, k - from);
    }
    k
}

/// A copy of the characters of `chars` from `from` up to `to`.
pub fn copy_range(chars: &[char], from: usize, to: usize) -> (part: Vec<char>)
    requires
        from <= to <= chars@.len(),
    ensures
        part@ == chars@.subrange(from as int, to as int),
{
    vstd::slice::slice_to_vec(vstd::slice::slice_subrange(chars, from, to))
}

/// Splits `chars` at each `sep`.
pub fn split_chars(chars: &[char], sep: char) -> (parts: Vec<Vec<char>>)
    ensures
        rows_view(parts@) == split(chars@, sep),
{
    let mut parts: Vec<Vec<char>> = Vec::new();
    let mut pos: usize = 0;
    proof {
        assert(chars@.skip(0) =~= chars@);
        assert(rows_view(parts@) + split(chars@, sep) =~= split(chars@, sep));
    }
    loop
        invariant
            pos <= chars@.len(),
            split(chars@, sep) == rows_view(parts@) + split(chars@.skip(pos as int), sep),
        decreases chars@.len() - pos,
    {
        let k: usize = find_char(chars, pos, sep);
        let part = copy_range(chars, pos, k);
        let ghost rest = chars@.skip(pos as int);
        let ghost before = parts@;
        parts.push(part);
        proof {
            assert(rest.take(k - pos) =~= chars@.subrange(pos as int, k as int));
            assert(rows_view(parts@) =~= rows_view(before).push(part@));
        }
        if k >= chars.len() {
            proof {
                assert(rest.take(k - pos) =~= rest);
                assert(split(rest, sep) =~= seq![rest]);
                assert(rows_view(parts@) =~= rows_view(before) + split(rest, sep));
            }
            return parts;
        }
        proof {
            assert(rest.skip(k - pos + 1) =~= chars@.skip(k + 1));
            assert(rows_view(parts@) + split(chars@.skip(k + 1), sep) =~= rows_view(before)
                + split(rest, sep));
        }
        pos = k + 1;
    }
}

/// Splits `chars` into its lines.
pub fn lines_chars(chars: &[char]) -> (lines: Vec<Vec<char>>)
    ensures
        rows_view(lines@) == lines_of(chars@),
{
    let mut lines: Vec<Vec<char>> = Vec::new();
    let mut pos: usize = 0;
    proof {
        assert(chars@.skip(0) =~= chars@);
        assert(rows_view(lines@) + lines_of(chars@) =~= lines_of(chars@));
    }
    while pos < chars.len()
        invariant
            pos <= chars@.len(),
            lines_of(chars@) == rows_view(lines@) + lines_of(chars@.skip(pos as int)),
        decreases chars@.len() - pos,
    {
        let k: usize = find_char(chars, pos, '\n');
        let ghost rest = chars@.skip(pos as int);
        let ghost before = lines@;
        if k >= chars.len() {
            let line = copy_range(chars, pos, k);
            lines.push(line);
            proof {
                assert(line@ =~= rest);
                assert(rows_view(lines@) =~= rows_view(before).push(line@));
                assert(rest.skip(rest.len() as int).len() == 0);
                assert(chars@.skip(k as int).len() == 0);
                assert(rows_view(lines@) + lines_of(chars@.skip(k as int)) =~= rows_view(before)
                    + lines_of(rest));
            }
            pos = k;
        } else {
            let end: usize = if k > pos && chars[k - 1] == '\r' {
                k - 1
            } else {
                k
            };
            let line = copy_range(chars, pos, end);
            lines.push(line);
            proof {
                assert(rest.take(k - pos) =~= chars@.subrange(pos as int, k as int));
                assert(line@ =~= strip_cr(rest.take(k - pos)));
                assert(rows_view(lines@) =~= rows_view(before).push(line@));
                assert(rest.skip(k - pos + 1) =~= chars@.skip(k + 1));
                assert(rows_view(lines@) + lines_of(chars@.skip(k + 1)) =~= rows_view(before)
                    + lines_of(rest));
            }
            pos = k + 1;
        }
    }
    proof {
        assert(chars@.skip(pos as int).len() == 0);
        assert(rows_view(lines@) + lines_of(chars@.skip(pos as int)) =~= rows_view(lines@));
    }
    lines
}

/// `s` without the whitespace at its start.
pub open spec fn trim_start(s: Seq<char>) -> Seq<char>
    decreases s.len(),
{
    if s.len() > 0 && is_whitespace(s[0]) {
        trim_start(s.skip(1))
    } else {
        s
    }
}

/// `s` without the whitespace at its end.
pub open spec fn trim_end(s: Seq<char>) -> Seq<char>
    decreases s.len(),
{
    if s.len() > 0 && is_whitespace(s.last()) {
        trim_end(s.drop_last())
    } else {
        s
    }
}

/// `s` without the whitespace at its start and at its end.
pub open spec fn trimmed(s: Seq<char>) -> Seq<char> {
    trim_end(trim_start(s))
}

/// The number of characters at the start of `s` that are no whitespace.
pub open spec fn word_len(s: Seq<char>) -> nat
    decreases s.len(),
{
    if s.len() > 0 && !is_whitespace(s[0]) {
        1 + word_len(s.skip(1))
    } else {
        0
    }
}

/// A word is never longer than the text it starts.
pub proof fn lemma_word_len_bound(s: Seq<char>)
    ensures
        word_len(s) <= s.len(),
    decreases s.len(),
{
    if s.len() > 0 && !is_whitespace(s[0]) {
        lemma_word_len_bound(s.skip(1));
    }
}

/// The words of `s`: its longest runs of characters that are no whitespace, in
/// order.
pub open spec fn words_of(s: Seq<char>) -> Seq<Seq<char>>
    decreases s.len(),
    via words_of_decreases
{
    if s.len() == 0 {
        Seq::empty()
    } else if is_whitespace(s[0]) {
        words_of(s.skip(1))
    } else {
        let n = word_len(s) as int;
        seq![s.take(n)] + words_of(s.skip(n))
    }
}

/// The text behind the first word is shorter than the text, so `words_of` ends.
#[via_fn]
proof fn words_of_decreases(s: Seq<char>) {
    lemma_word_len_bound(s);
}

/// Whether `s` holds no whitespace.
pub open spec fn no_whitespace(s: Seq<char>) -> bool {
    forall|i: int| 0 <= i < s.len() ==> !is_whitespace(#[trigger] s[i])
}

/// The words with one blank between each two.
pub open spec fn join_words(words: Seq<Seq<char>>) -> Seq<char>
    decreases words.len(),
{
    if words.len() == 0 {
        Seq::empty()
    } else if words.len() == 1 {
        words[0]
    } else {
        words[0] + seq![' '] + join_words(words.skip(1))
    }
}

/// A word ends where the first whitespace stands, or the text.
pub proof fn lemma_word_len(s: Seq<char>, k: int)
    requires
        0 <= k <= s.len(),
        forall|i: int| 0 <= i < k ==> !is_whitespace(#[trigger] s[i]),
        k < s.len() ==> is_whitespace(s[k]),
    ensures
        word_len(s) == k,
    decreases k,
{
    if k > 0 {
        let rest = s.skip(1);
        assert forall|i: int| 0 <= i < k - 1 implies !is_whitespace(#[trigger] rest[i]) by {
            assert(rest[i] == s[i + 1]);
        }
        lemma_word_len(rest, k - 1);
    }
}

/// A text that starts with a word, with whitespace or nothing behind it, has
/// that word as its first, and then the words of what is behind it.
pub proof fn lemma_words_first(w: Seq<char>, rest: Seq<char>)
    requires
        w.len() > 0,
        no_whitespace(w),
        rest.len() == 0 || is_whitespace(rest[0]),
    ensures
        words_of(w + rest) == seq![w] + words_of(rest),
{
    let s = w + rest;
    assert forall|i: int| 0 <= i < w.len() implies !is_whitespace(#[trigger] s[i]) by {
        assert(s[i] == w[i]);
    }
    if rest.len() > 0 {
        assert(s[w.len() as int] == rest[0]);
    }
    lemma_word_len(s, w.len() as int);
    assert(s.take(w.len() as int) =~= w);
    assert(s.skip(w.len() as int) =~= rest);
}

/// Words without whitespace, with one blank between each two, are the words of
/// the text that they make.
pub proof fn lemma_join_words(words: Seq<Seq<char>>)
    requires
        forall|i: int| 0 <= i < words.len() ==> (#[trigger] words[i]).len() > 0 && no_whitespace(
            words[i],
        ),
    ensures
        words_of(join_words(words)) == words,
        words.len() > 0 ==> join_words(words).len() > 0 && !is_whitespace(
            join_words(words).last(),
        ),
    decreases words.len(),
{
    if words.len() == 0 {
        assert(words =~= Seq::<Seq<char>>::empty());
    } else if words.len() == 1 {
        let w = words[0];
        lemma_words_first(w, Seq::empty());
        assert(w + Seq::<char>::empty() =~= w);
        assert(seq![w] + Seq::<Seq<char>>::empty() =~= words);
        assert(!is_whitespace(w[w.len() - 1]));
    } else {
        let w = words[0];
        let others = words.skip(1);
        assert forall|i: int| 0 <= i < others.len() implies (#[trigger] others[i]).len() > 0
            && no_whitespace(others[i]) by {
            assert(others[i] == words[i + 1]);
        }
        lemma_join_words(others);
        let behind = seq![' '] + join_words(others);
        assert(behind.skip(1) =~= join_words(others));
        assert(words_of(behind) == words_of(join_words(others)));
        lemma_words_first(w, behind);
        assert(join_words(words) =~= w + behind);
        assert(seq![w] + others =~= words);
        assert(join_words(words).last() == join_words(others).last());
    }
}

/// The characters of `chars` without the whitespace around them.
pub fn trim_chars(chars: &[char]) -> (inner: Vec<char>)
    ensures
        inner@ == trimmed(chars@),
{
    let n: usize = chars.len();
    let mut a: usize = 0;
    proof {
        assert(chars@.skip(0) =~= chars@);
    }
    while a < n && char_is_whitespace(chars[a])
        invariant
            n == chars@.len(),
            a <= n,
            trim_start(chars@) == trim_start(chars@.skip(a as int)),
        decreases n - a,
    {
        proof {
            assert(chars@.skip(a as int).skip(1) =~= chars@.skip(a + 1));
        }
        a += 1;
    }
    let mut b: usize = n;
    proof {
        assert(chars@.subrange(a as int, n as int) =~= chars@.skip(a as int));
    }
    while b > a && char_is_whitespace(chars[b - 1])
        invariant
            a <= b <= n,
            n == chars@.len(),
            trim_start(chars@) == chars@.skip(a as int),
            trimmed(chars@) == trim_end(chars@.subrange(a as int, b as int)),
        decreases b - a,
    {
        proof {
            assert(chars@.subrange(a as int, b as int).drop_last() =~= chars@.subrange(
                a as int,
                b - 1,
            ));
        }
        b -= 1;
    }
    copy_range(chars, a, b)
}

/// Splits `chars` into its words.
pub fn words_chars(chars: &[char]) -> (words: Vec<Vec<char>>)
    ensures
        rows_view(words@) == words_of(chars@),
{
    let n: usize = chars.len();
    let mut words: Vec<Vec<char>> = Vec::new();
    let mut pos: usize = 0;
    proof {
        assert(chars@.skip(0) =~= chars@);
        assert(rows_view(words@) + words_of(chars@) =~= words_of(chars@));
    }
    while pos < n
        invariant
            n == chars@.len(),
            pos <= n,
            words_of(chars@) == rows_view(words@) + words_of(chars@.skip(pos as int)),
        decreases n - pos,
    {
        let ghost rest = chars@.skip(pos as int);
        if char_is_whitespace(chars[pos]) {
            proof {
                assert(rest.skip(1) =~= chars@.skip(pos + 1));
            }
            pos += 1;
        } else {
            let mut end: usize = pos + 1;
            proof {
                assert(rest.skip(1) =~= chars@.skip(end as int));
            }
            while end < n && !char_is_whitespace(chars[end])
                invariant
                    n == chars@.len(),
                    pos < end <= n,
                    rest == chars@.skip(pos as int),
                    word_len(rest) == (end - pos) + word_len(chars@.skip(end as int)),
                decreases n - end,
            {
                proof {
                    assert(chars@.skip(end as int).skip(1) =~= chars@.skip(end + 1));
                }
                end += 1;
            }
            let word = copy_range(chars, pos, end);
            let ghost before = words@;
            words.push(word);
            proof {
                assert(word_len(rest) == end - pos);
                assert(rest.take(end - pos) =~= word@);
                assert(rest.skip(end - pos) =~= chars@.skip(end as int));
                assert(rows_view(words@) =~= rows_view(before).push(word@));
                assert(rows_view(words@) + words_of(chars@.skip(end as int)) =~= rows_view(before)
                    + words_of(rest));
            }
            pos = end;
        }
    }
    proof {
        assert(rows_view(words@) + words_of(chars@.skip(pos as int)) =~= rows_view(words@));
    }
    words
}

} // verus!
