//! Character-level helpers shared by the request parser and the response
//! formatter: conversion between strings and character vectors, decimal
//! rendering of unsigned numbers, and splitting text into lines and joining
//! lines back into text.

use vstd::prelude::*;
use vstd::std_specs::iter::IteratorSpec;
use vstd::string::{StringExecFns, StringSliceAdditionalSpecFns};
use vstd::utf8::encode_utf8_decode_utf8;

verus! {

/// Trusted: `String::push` from the standard library. Its documentation says
/// that it appends the given character to the end of the string; the contract
/// claims exactly that and nothing about capacity.
pub assume_specification[ String::push ](s: &mut String, c: char)
    ensures
        final(s)@ == old(s)@.push(c),
;

/// The character that renders the decimal digit `d` (meaningful for `d < 10`).
pub open spec fn digit(d: nat) -> char {
    ((48 + d) as u8) as char
}

/// The decimal rendering of `n`: most significant digit first, no sign, no
/// leading zeros, and `"0"` for zero.
pub open spec fn decimal(n: nat) -> Seq<char>
    decreases n,
{
    if n < 10 {
        seq![digit(n)]
    } else {
        decimal(n / 10).push(digit(n % 10))
    }
}

/// The contents of a list of strings.
pub open spec fn texts(strings: Seq<String>) -> Seq<Seq<char>> {
    strings.map_values(|s: String| s@)
}

/// The number of characters of `s` before its first line feed (all of them if
/// it has none).
pub open spec fn line_len(s: Seq<char>) -> nat
    decreases s.len(),
{
    if s.len() == 0 || s[0] == '\n' {
        0
    } else {
        1 + line_len(s.drop_first())
    }
}

/// `line` without the carriage return that ends it, if one does.
pub open spec fn strip_cr(line: Seq<char>) -> Seq<char> {
    if line.len() > 0 && line.last() == '\r' {
        line.drop_last()
    } else {
        line
    }
}

/// The lines of `s`. A line ends at a line feed, or at a carriage return
/// directly followed by one; the line ending is not part of the line. Text
/// after the last line feed is a line of its own, kept as it is. The empty
/// text has no lines.
pub open spec fn lines(s: Seq<char>) -> Seq<Seq<char>>
    decreases s.len(),
{
    if s.len() == 0 {
        Seq::empty()
    } else if line_len(s) == s.len() {
        seq![s]
    } else {
        proof {
            lemma_line_len(s);
        }
        seq![strip_cr(s.take(line_len(s) as int))] + lines(s.skip(line_len(s) as int + 1))
    }
}

/// The concatenation of `parts` with `separator` between each two neighbours.
pub open spec fn join(parts: Seq<Seq<char>>, separator: Seq<char>) -> Seq<char>
    decreases parts.len(),
{
    if parts.len() == 0 {
        Seq::empty()
    } else if parts.len() == 1 {
        parts[0]
    } else {
        join(parts.drop_last(), separator) + separator + parts.last()
    }
}

/// `line_len` stays within the sequence, covers no line feed, and stops at a
/// line feed or at the end.
pub proof fn lemma_line_len(s: Seq<char>)
    ensures
        line_len(s) <= s.len(),
        forall|i: int| 0 <= i < line_len(s) ==> s[i] != '\n',
        line_len(s) < s.len() ==> s[line_len(s) as int] == '\n',
    decreases s.len(),
{
    if s.len() > 0 && s[0] != '\n' {
        let rest = s.drop_first();
        lemma_line_len(rest);
        assert forall|i: int| 0 <= i < line_len(s) implies s[i] != '\n' by {
            if i > 0 {
                assert(s[i] == rest[i - 1]);
            }
        }
    }
}

/// A run of `n` characters without a line feed that ends at a line feed or at
/// the end of `s` is the first line of `s`, line ending aside.
pub proof fn lemma_line_len_is(s: Seq<char>, n: int)
    requires
        0 <= n <= s.len(),
        forall|i: int| 0 <= i < n ==> s[i] != '\n',
        n < s.len() ==> s[n] == '\n',
    ensures
        line_len(s) == n,
    decreases n,
{
    if n > 0 {
        let rest = s.drop_first();
        assert forall|i: int| 0 <= i < n - 1 implies rest[i] != '\n' by {
            assert(rest[i] == s[i + 1]);
        }
        lemma_line_len_is(rest, n - 1);
    }
}

/// A decimal rendering is never empty and holds nothing but the digits `0` to `9`.
pub proof fn lemma_decimal_digits(n: nat)
    ensures
        decimal(n).len() >= 1,
        forall|i: int| 0 <= i < decimal(n).len() ==> '0' <= #[trigger] decimal(n)[i] <= '9',
    decreases n,
{
    if n >= 10 {
        lemma_decimal_digits(n / 10);
    }
}

/// No line holds a line feed, and non-empty text has at least one line.
pub proof fn lemma_lines(s: Seq<char>)
    ensures
        s.len() > 0 ==> lines(s).len() > 0,
        forall|k: int, i: int|
            0 <= k < lines(s).len() && 0 <= i < lines(s)[k].len() ==> #[trigger] lines(s)[k][i]
                != '\n',
    decreases s.len(),
{
    if s.len() > 0 {
        lemma_line_len(s);
        let n = line_len(s) as int;
        if n < s.len() {
            let first = strip_cr(s.take(n));
            let rest = lines(s.skip(n + 1));
            lemma_lines(s.skip(n + 1));
            assert forall|k: int, i: int|
                0 <= k < lines(s).len() && 0 <= i < lines(s)[k].len() implies #[trigger] lines(
                s,
            )[k][i] != '\n' by {
                if k == 0 {
                    assert(first[i] == s[i]);
                } else {
                    assert(lines(s)[k] == rest[k - 1]);
                }
            }
        }
    }
}

/// Text that starts with a line without a carriage return at its end splits
/// into that line and the lines of what follows its line feed.
pub proof fn lemma_lines_first(first: Seq<char>, rest: Seq<char>)
    requires
        forall|i: int| 0 <= i < first.len() ==> first[i] != '\n',
        first.len() > 0 ==> first.last() != '\r',
    ensures
        lines(first + seq!['\n'] + rest) == seq![first] + lines(rest),
{
    let text = first + seq!['\n'] + rest;
    let n = first.len() as int;
    lemma_line_len_is(text, n);
    assert(text.take(n) =~= first);
    assert(text.skip(n + 1) =~= rest);
}

/// Joining unfolds from the front as well as from the back.
pub proof fn lemma_join_first(parts: Seq<Seq<char>>, separator: Seq<char>)
    requires
        parts.len() >= 2,
    ensures
        join(parts, separator) == parts[0] + separator + join(parts.drop_first(), separator),
    decreases parts.len(),
{
    let front = parts.drop_last();
    let tail = parts.drop_first();
    if parts.len() == 2 {
        assert(front =~= seq![parts[0]]);
        assert(tail =~= seq![parts[1]]);
        assert(join(front, separator) == parts[0]);
        assert(join(tail, separator) == parts[1]);
    } else {
        lemma_join_first(front, separator);
        assert(front.drop_first() =~= tail.drop_last());
        assert(front[0] == parts[0]);
        assert(tail.last() == parts.last());
        assert(join(parts, separator) =~= parts[0] + separator + join(tail, separator));
    }
}

/// Joining parts that hold no line feed with CRLF yields text in which every
/// line feed directly follows a carriage return.
pub proof fn lemma_join_crlf(parts: Seq<Seq<char>>)
    requires
        forall|k: int, i: int|
            0 <= k < parts.len() && 0 <= i < parts[k].len() ==> #[trigger] parts[k][i] != '\n',
    ensures
        forall|i: int|
            0 <= i < join(parts, "\r\n"@).len() && #[trigger] join(parts, "\r\n"@)[i] == '\n'
                ==> i > 0 && join(parts, "\r\n"@)[i - 1] == '\r',
    decreases parts.len(),
{
    reveal_strlit("\r\n");
    let separator = "\r\n"@;
    let joined = join(parts, separator);
    if parts.len() == 1 {
        assert forall|i: int| 0 <= i < joined.len() && #[trigger] joined[i] == '\n' implies i > 0
            && joined[i - 1] == '\r' by {
            assert(parts[0][i] != '\n');
        }
    } else if parts.len() >= 2 {
        let front = join(parts.drop_last(), separator);
        let last = parts.last();
        assert forall|k: int, i: int|
            0 <= k < parts.drop_last().len() && 0 <= i < parts.drop_last()[k].len() implies #[trigger] parts.drop_last()[k][i]
            != '\n' by {
            assert(parts.drop_last()[k] == parts[k]);
        }
        lemma_join_crlf(parts.drop_last());
        assert forall|i: int| 0 <= i < joined.len() && #[trigger] joined[i] == '\n' implies i > 0
            && joined[i - 1] == '\r' by {
            if i < front.len() {
                assert(joined[i] == front[i]);
                assert(joined[i - 1] == front[i - 1]);
            } else if i < front.len() + 2 {
                assert(joined[front.len() as int] == '\r');
                assert(joined[front.len() as int + 1] == '\n');
            } else {
                assert(joined[i] == last[i - front.len() - 2]);
            }
        }
    }
}

/// The characters of `s`, in order.
pub fn to_chars(s: &str) -> (chars: Vec<char>)
    ensures
        chars@ == s@,
{
    broadcast use vstd::string::group_string_axioms;

    let mut chars: Vec<char> = Vec::new();
    let source = s.chars();
    assert(source.remaining() == s@);
    for c in it: source
        invariant
            it.seq() == s@,
            chars@ == it.seq().take(it.index()),
    {
        chars.push(c);
    }
    chars
}

/// Whether `a` and `b` hold the same characters.
pub fn same_text(a: &str, b: &str) -> (same: bool)
    ensures
        same == (a@ == b@),
{
    let left = a.as_bytes();
    let right = b.as_bytes();
    if left.len() != right.len() {
        return false;
    }
    let mut i: usize = 0;
    while i < left.len()
        invariant
            left@ == a.spec_bytes(),
            right@ == b.spec_bytes(),
            left.len() == right.len(),
            i <= left.len(),
            forall|j: int| 0 <= j < i ==> left[j] == right[j],
        decreases left.len() - i,
    {
        if left[i] != right[i] {
            return false;
        }
        i += 1;
    }
    proof {
        assert(left@ =~= right@);
        encode_utf8_decode_utf8(a@);
        encode_utf8_decode_utf8(b@);
    }
    true
}

/// The string made of `chars[from..to]`.
pub fn from_chars(chars: &Vec<char>, from: usize, to: usize) -> (s: String)
    requires
        from <= to <= chars.len(),
    ensures
        s@ == chars@.subrange(from as int, to as int),
{
    let mut s = String::new();
    let mut i: usize = from;
    while i < to
        invariant
            from <= i <= to <= chars.len(),
            s@ == chars@.subrange(from as int, i as int),
        decreases to - i,
    {
        s.push(chars[i]);
        i += 1;
    }
    s
}

/// Appends the decimal rendering of `n` to `out`.
pub fn push_decimal(out: &mut String, n: usize)
    ensures
        final(out)@ == old(out)@ + decimal(n as nat),
    decreases n,
{
    if n >= 10 {
        push_decimal(out, n / 10);
    }
    let d: u8 = (n % 10) as u8;
    out.push((48 + d) as char);
}

/// The decimal rendering of `n` as a string.
pub fn format_decimal(n: usize) -> (s: String)
    ensures
        s@ == decimal(n as nat),
{
    let mut s = String::new();
    push_decimal(&mut s, n);
    s
}

/// Splits `text` into its lines.
pub fn split_lines(text: &str) -> (result: Vec<String>)
    ensures
        texts(result@) == lines(text@),
{
    let chars = to_chars(text);
    let mut result: Vec<String> = Vec::new();
    let mut start: usize = 0;
    let mut i: usize = 0;
    assert(chars@.skip(0) =~= chars@);
    assert(texts(result@) =~= Seq::<Seq<char>>::empty());
    while i < chars.len()
        invariant
            chars@ == text@,
            start <= i <= chars.len(),
            forall|j: int| start <= j < i ==> chars[j] != '\n',
            lines(text@) == texts(result@) + lines(chars@.skip(start as int)),
        decreases chars.len() - i,
    {
        if chars[i] == '\n' {
            let end: usize = if i > start && chars[i - 1] == '\r' {
                (i - 1) as usize
            } else {
                i
            };
            let line = from_chars(&chars, start, end);
            proof {
                let tail = chars@.skip(start as int);
                let n = i - start;
                assert forall|j: int| 0 <= j < n implies tail[j] != '\n' by {
                    assert(tail[j] == chars[start + j]);
                }
                lemma_line_len_is(tail, n);
                assert(tail.take(n) =~= chars@.subrange(start as int, i as int));
                assert(strip_cr(tail.take(n)) =~= line@);
                assert(tail.skip(n + 1) =~= chars@.skip(i + 1));
                assert(texts(result@.push(line)) =~= texts(result@) + seq![line@]);
            }
            result.push(line);
            start = i + 1;
        }
        i += 1;
    }
    if start < chars.len() {
        let line = from_chars(&chars, start, chars.len());
        proof {
            let tail = chars@.skip(start as int);
            assert forall|j: int| 0 <= j < tail.len() implies tail[j] != '\n' by {
                assert(tail[j] == chars[start + j]);
            }
            lemma_line_len_is(tail, tail.len() as int);
            assert(tail =~= line@);
            assert(texts(result@.push(line)) =~= texts(result@) + seq![line@]);
        }
        result.push(line);
    }
    result
}

/// Joins `parts` into one string with `separator` between each two neighbours.
pub fn join_lines(parts: &Vec<String>, separator: &str) -> (joined: String)
    ensures
        joined@ == join(texts(parts@), separator@),
{
    let mut joined = String::new();
    let mut i: usize = 0;
    assert(texts(parts@).take(0) =~= Seq::<Seq<char>>::empty());
    while i < parts.len()
        invariant
            i <= parts.len(),
            joined@ == join(texts(parts@).take(i as int), separator@),
        decreases parts.len() - i,
    {
        proof {
            let done = texts(parts@).take(i + 1);
            assert(done.drop_last() =~= texts(parts@).take(i as int));
            assert(done.last() == parts[i as int]@);
        }
        if i > 0 {
            joined.append(separator);
        }
        joined.append(parts[i].as_str());
        i += 1;
    }
    assert(texts(parts@).take(parts.len() as int) =~= texts(parts@));
    joined
}

} // verus!
