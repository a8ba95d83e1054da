//! The request side of the protocol: collecting the header block of one
//! connection and parsing its request line into a method and a path.
//!
//! Only the first line matters. It is split on whitespace; the first word must
//! name a supported method and the second word is the path, used verbatim as
//! the routing key.

use crate::text::{from_chars, texts, to_chars};
use vstd::prelude::*;

verus! {

/// The request methods the server routes.
#[derive(Clone, Copy, Debug, Hash, PartialEq, Eq, Structural)]
pub enum RequestType {
    GET,
    POST,
}

/// Why a request line was rejected. A rejected request gets no response.
#[derive(Clone, Copy, Debug, PartialEq, Eq, Structural)]
pub enum RequestError {
    /// There is no request line, or it has fewer than two words.
    Unparseable,
    /// The first word is neither `GET` nor `POST`.
    UnsupportedMethod,
}

/// A parsed request line.
#[derive(Debug)]
pub struct Request {
    pub method: RequestType,
    pub path: String,
}

impl View for Request {
    type V = (RequestType, Seq<char>);

    open spec fn view(&self) -> (RequestType, Seq<char>) {
        (self.method, self.path@)
    }
}

/// The header block of one connection, collected line by line.
///
/// The caller reads the connection as line-delimited text and feeds each line,
/// stripped of its line ending, until `feed` answers that the block is over.
pub struct RequestHead {
    lines: Vec<String>,
    complete: bool,
}

/// What a `RequestHead` holds: the lines fed before the first empty one, and
/// whether that empty line has been seen.
pub struct RequestHeadView {
    pub lines: Seq<Seq<char>>,
    pub complete: bool,
}

impl View for RequestHead {
    type V = RequestHeadView;

    closed spec fn view(&self) -> RequestHeadView {
        RequestHeadView { lines: texts(self.lines@), complete: self.complete }
    }
}

/// Whether `c` separates words: the characters with the Unicode property
/// `White_Space`.
pub open spec fn is_whitespace(c: char) -> bool {
    let u = c as u32;
    ||| 0x09 <= u <= 0x0D
    ||| u == 0x20
    ||| u == 0x85
    ||| u == 0xA0
    ||| u == 0x1680
    ||| 0x2000 <= u <= 0x200A
    ||| u == 0x2028
    ||| u == 0x2029
    ||| u == 0x202F
    ||| u == 0x205F
    ||| u == 0x3000
}

/// The number of characters of `s` before its first whitespace character
/// (all of them if it has none).
pub open spec fn word_len(s: Seq<char>) -> nat
    decreases s.len(),
{
    if s.len() == 0 || is_whitespace(s[0]) {
        0
    } else {
        1 + word_len(s.drop_first())
    }
}

/// The words of `s`: its maximal runs of characters that are not whitespace,
/// in order. Leading, trailing and repeated whitespace produce no empty words.
pub open spec fn tokens(s: Seq<char>) -> Seq<Seq<char>>
    decreases s.len(),
{
    if s.len() == 0 {
        Seq::empty()
    } else if is_whitespace(s[0]) {
        tokens(s.drop_first())
    } else {
        proof {
            lemma_word_len(s);
        }
        seq![s.take(word_len(s) as int)] + tokens(s.skip(word_len(s) as int))
    }
}

/// The method that the word `name` stands for. Names are case-sensitive.
pub open spec fn method_of(name: Seq<char>) -> Option<RequestType> {
    if name == "GET"@ {
        Some(RequestType::GET)
    } else if name == "POST"@ {
        Some(RequestType::POST)
    } else {
        None
    }
}

/// What a request line means: its method and path, or why it is rejected.
pub open spec fn parse(line: Seq<char>) -> Result<(RequestType, Seq<char>), RequestError> {
    let words = tokens(line);
    if words.len() < 2 {
        Err(RequestError::Unparseable)
    } else {
        match method_of(words[0]) {
            Some(method) => Ok((method, words[1])),
            None => Err(RequestError::UnsupportedMethod),
        }
    }
}

impl RequestHeadView {
    /// The head of a connection from which nothing has been read yet.
    pub open spec fn new() -> RequestHeadView {
        RequestHeadView { lines: Seq::empty(), complete: false }
    }

    /// The head after one more line. An empty line completes the block and is
    /// not kept; nothing is kept after it.
    pub open spec fn feed(self, line: Seq<char>) -> RequestHeadView {
        if self.complete {
            self
        } else if line.len() == 0 {
            RequestHeadView { lines: self.lines, complete: true }
        } else {
            RequestHeadView { lines: self.lines.push(line), complete: false }
        }
    }

    /// The head after the lines of `lines`, in order.
    pub open spec fn feed_all(self, lines: Seq<Seq<char>>) -> RequestHeadView
        decreases lines.len(),
    {
        if lines.len() == 0 {
            self
        } else {
            self.feed_all(lines.drop_last()).feed(lines.last())
        }
    }

    /// The request line: the first line of the block, if it has one.
    pub open spec fn request_line(self) -> Option<Seq<char>> {
        if self.lines.len() > 0 {
            Some(self.lines[0])
        } else {
            None
        }
    }

    /// What the collected head asks for. A head without a request line is
    /// unparseable.
    pub open spec fn request(self) -> Result<(RequestType, Seq<char>), RequestError> {
        match self.request_line() {
            Some(line) => parse(line),
            None => Err(RequestError::Unparseable),
        }
    }
}

/// The header block of a stream of lines: the lines before the first empty one.
pub open spec fn header_block(lines: Seq<Seq<char>>) -> Seq<Seq<char>>
    decreases lines.len(),
{
    if lines.len() == 0 || lines[0].len() == 0 {
        Seq::empty()
    } else {
        seq![lines[0]] + header_block(lines.drop_first())
    }
}

/// `word_len` stays within the sequence, covers no whitespace, and stops at
/// whitespace or at the end.
pub proof fn lemma_word_len(s: Seq<char>)
    ensures
        word_len(s) <= s.len(),
        forall|i: int| 0 <= i < word_len(s) ==> !is_whitespace(s[i]),
        word_len(s) < s.len() ==> is_whitespace(s[word_len(s) as int]),
        s.len() > 0 && !is_whitespace(s[0]) ==> word_len(s) >= 1,
    decreases s.len(),
{
    if s.len() > 0 && !is_whitespace(s[0]) {
        let rest = s.drop_first();
        lemma_word_len(rest);
        assert forall|i: int| 0 <= i < word_len(s) implies !is_whitespace(s[i]) by {
            if i > 0 {
                assert(s[i] == rest[i - 1]);
            }
        }
    }
}

/// A run of `n` characters without whitespace that ends at whitespace or at
/// the end of `s` is the first word of `s`.
pub proof fn lemma_word_len_is(s: Seq<char>, n: int)
    requires
        0 <= n <= s.len(),
        forall|i: int| 0 <= i < n ==> !is_whitespace(s[i]),
        n < s.len() ==> is_whitespace(s[n]),
    ensures
        word_len(s) == n,
    decreases n,
{
    if n > 0 {
        let rest = s.drop_first();
        assert forall|i: int| 0 <= i < n - 1 implies !is_whitespace(rest[i]) by {
            assert(rest[i] == s[i + 1]);
        }
        lemma_word_len_is(rest, n - 1);
    }
}

/// Leading whitespace contributes no words.
pub proof fn lemma_tokens_skip_whitespace(s: Seq<char>, n: int)
    requires
        0 <= n <= s.len(),
        forall|i: int| 0 <= i < n ==> is_whitespace(s[i]),
    ensures
        tokens(s) == tokens(s.skip(n)),
    decreases n,
{
    if n == 0 {
        assert(s.skip(0) =~= s);
    } else {
        let rest = s.drop_first();
        assert forall|i: int| 0 <= i < n - 1 implies is_whitespace(rest[i]) by {
            assert(rest[i] == s[i + 1]);
        }
        lemma_tokens_skip_whitespace(rest, n - 1);
        assert(rest.skip(n - 1) =~= s.skip(n));
    }
}

/// Feeding the lines of a connection to a fresh head keeps exactly its header
/// block: the lines before the first empty one.
pub proof fn lemma_feed_all(lines: Seq<Seq<char>>)
    ensures
        RequestHeadView::new().feed_all(lines).lines == header_block(lines),
        RequestHeadView::new().feed_all(lines).complete <==> exists|i: int|
            0 <= i < lines.len() && (#[trigger] lines[i]).len() == 0,
    decreases lines.len(),
{
    if lines.len() > 0 {
        let front = lines.drop_last();
        lemma_feed_all(front);
        lemma_header_block_push(front, lines.last());
        assert(front.push(lines.last()) =~= lines);
        let fed = RequestHeadView::new().feed_all(front);
        if fed.complete {
            let i = choose|i: int| 0 <= i < front.len() && (#[trigger] front[i]).len() == 0;
            assert(lines[i].len() == 0);
        } else {
            assert forall|i: int| 0 <= i < front.len() implies (#[trigger] lines[i]).len() != 0 by {
                assert(front[i] == lines[i]);
            }
            if lines.last().len() == 0 {
                assert(lines[lines.len() - 1].len() == 0);
            }
        }
    } else {
        assert(RequestHeadView::new().feed_all(lines).lines =~= header_block(lines));
    }
}

/// The header block of a stream with one more line: unchanged if the block
/// was already over or the line is empty, else longer by that line.
pub proof fn lemma_header_block_push(lines: Seq<Seq<char>>, line: Seq<char>)
    ensures
        header_block(lines.push(line)) == if header_block(lines).len() < lines.len() || line.len()
            == 0 {
            header_block(lines)
        } else {
            header_block(lines).push(line)
        },
        header_block(lines).len() <= lines.len(),
        header_block(lines).len() < lines.len() <==> exists|i: int|
            0 <= i < lines.len() && (#[trigger] lines[i]).len() == 0,
    decreases lines.len(),
{
    let longer = lines.push(line);
    if lines.len() == 0 {
        assert(longer.drop_first() =~= Seq::<Seq<char>>::empty());
        assert(header_block(longer.drop_first()) =~= Seq::<Seq<char>>::empty());
        if line.len() != 0 {
            assert(header_block(longer) =~= header_block(lines).push(line));
        } else {
            assert(header_block(longer) =~= header_block(lines));
        }
    } else if lines[0].len() == 0 {
        assert(header_block(longer) =~= header_block(lines));
    } else {
        let rest = lines.drop_first();
        lemma_header_block_push(rest, line);
        assert(longer.drop_first() =~= rest.push(line));
        assert(header_block(lines).len() == 1 + header_block(rest).len());
        if header_block(rest).len() < rest.len() || line.len() == 0 {
            assert(header_block(longer) =~= header_block(lines));
        } else {
            assert(header_block(longer) =~= header_block(lines).push(line));
        }
        if header_block(rest).len() < rest.len() {
            let i = choose|i: int| 0 <= i < rest.len() && (#[trigger] rest[i]).len() == 0;
            assert(lines[i + 1].len() == 0);
        } else {
            assert forall|i: int| 0 <= i < lines.len() implies (#[trigger] lines[i]).len() != 0 by {
                if i > 0 {
                    assert(rest[i - 1] == lines[i]);
                }
            }
        }
    }
}

/// Whether `c` is whitespace.
pub fn whitespace(c: char) -> (b: bool)
    ensures
        b == is_whitespace(c),
{
    let u: u32 = c as u32;
    (0x09 <= u && u <= 0x0D) || u == 0x20 || u == 0x85 || u == 0xA0 || u == 0x1680 || (0x2000 <= u
        && u <= 0x200A) || u == 0x2028 || u == 0x2029 || u == 0x202F || u == 0x205F || u == 0x3000
}

/// The first position at or after `from` that holds no whitespace.
fn skip_whitespace(chars: &Vec<char>, from: usize) -> (to: usize)
    requires
        from <= chars.len(),
    ensures
        from <= to <= chars.len(),
        forall|i: int| from <= i < to ==> is_whitespace(chars[i]),
        to < chars.len() ==> !is_whitespace(chars[to as int]),
{
    let mut to: usize = from;
    while to < chars.len() && whitespace(chars[to])
        invariant
            from <= to <= chars.len(),
            forall|i: int| from <= i < to ==> is_whitespace(chars[i]),
        decreases chars.len() - to,
    {
        to += 1;
    }
    to
}

/// The end of the word that starts at `from`.
fn skip_word(chars: &Vec<char>, from: usize) -> (to: usize)
    requires
        from <= chars.len(),
    ensures
        to == from + word_len(chars@.skip(from as int)),
        from <= to <= chars.len(),
{
    let mut to: usize = from;
    while to < chars.len() && !whitespace(chars[to])
        invariant
            from <= to <= chars.len(),
            forall|i: int| from <= i < to ==> !is_whitespace(chars[i]),
        decreases chars.len() - to,
    {
        to += 1;
    }
    proof {
        let tail = chars@.skip(from as int);
        assert forall|i: int| 0 <= i < to - from implies !is_whitespace(tail[i]) by {
            assert(tail[i] == chars[from + i]);
        }
        lemma_word_len_is(tail, to - from);
    }
    to
}

/// Whether `chars[from..to]` spells `word`.
fn spells(chars: &Vec<char>, from: usize, to: usize, word: &str) -> (b: bool)
    requires
        from <= to <= chars.len(),
    ensures
        b == (chars@.subrange(from as int, to as int) == word@),
{
    let letters = to_chars(word);
    if letters.len() != to - from {
        return false;
    }
    let mut i: usize = 0;
    while i < letters.len()
        invariant
            from <= to <= chars.len(),
            letters@ == word@,
            letters.len() == to - from,
            i <= letters.len(),
            forall|j: int| 0 <= j < i ==> chars[from + j] == letters[j],
        decreases letters.len() - i,
    {
        if chars[from + i] != letters[i] {
            assert(chars@.subrange(from as int, to as int)[i as int] != word@[i as int]);
            return false;
        }
        i += 1;
    }
    assert(chars@.subrange(from as int, to as int) =~= word@);
    true
}

impl RequestHead {
    /// A head for a connection from which nothing has been read yet.
    pub fn new() -> (head: RequestHead)
        ensures
            head@ == RequestHeadView::new(),
    {
        let head = RequestHead { lines: Vec::new(), complete: false };
        assert(head@.lines =~= Seq::empty());
        head
    }

    /// Takes the next line of the connection. Answers whether the caller
    /// should read another one: `false` once the empty line that ends the
    /// header block has been seen.
    pub fn feed(&mut self, line: String) -> (more: bool)
        ensures
            final(self)@ == old(self)@.feed(line@),
            more == !final(self)@.complete,
    {
        if self.complete {
            return false;
        }
        if line.as_str().is_empty() {
            self.complete = true;
            assert(self@.lines =~= old(self)@.lines);
            return false;
        }
        self.lines.push(line);
        assert(self@.lines =~= old(self)@.lines.push(line@));
        true
    }

    /// Whether the empty line that ends the header block has been seen.
    pub fn is_complete(&self) -> (complete: bool)
        ensures
            complete == self@.complete,
    {
        self.complete
    }

    /// The request line, if any line was collected.
    pub fn request_line(&self) -> (line: Option<&String>)
        ensures
            match line {
                Some(text) => self@.request_line() == Some(text@),
                None => self@.request_line() is None,
            },
    {
        if self.lines.len() > 0 {
            Some(&self.lines[0])
        } else {
            None
        }
    }

    /// Parses the collected head: the request line decides, and a head
    /// without one is unparseable.
    pub fn parse(&self) -> (parsed: Result<Request, RequestError>)
        ensures
            match parsed {
                Ok(request) => self@.request() == Ok::<(RequestType, Seq<char>), RequestError>(
                    request@,
                ),
                Err(error) => self@.request() == Err::<(RequestType, Seq<char>), RequestError>(
                    error,
                ),
            },
    {
        match self.request_line() {
            Some(line) => parse_request_line(line.as_str()),
            None => Err(RequestError::Unparseable),
        }
    }
}

/// Parses a request line. Succeeds exactly when the line has at least two
/// words and the first is `GET` or `POST`; the path is the second word,
/// character for character.
pub fn parse_request_line(line: &str) -> (parsed: Result<Request, RequestError>)
    ensures
        match parsed {
            Ok(request) => parse(line@) == Ok::<(RequestType, Seq<char>), RequestError>(request@),
            Err(error) => parse(line@) == Err::<(RequestType, Seq<char>), RequestError>(error),
        },
{
    let chars = to_chars(line);
    let method_from = skip_whitespace(&chars, 0);
    let method_to = skip_word(&chars, method_from);
    let path_from = skip_whitespace(&chars, method_to);
    let path_to = skip_word(&chars, path_from);
    proof {
        let s = chars@;
        let after_method = s.skip(method_to as int);
        lemma_tokens_skip_whitespace(s, method_from as int);
        assert forall|i: int| 0 <= i < path_from - method_to implies is_whitespace(
            after_method[i],
        ) by {
            assert(after_method[i] == s[method_to + i]);
        }
        lemma_tokens_skip_whitespace(after_method, path_from - method_to);
        assert(after_method.skip(path_from - method_to) =~= s.skip(path_from as int));
        if method_from < s.len() {
            let first = s.skip(method_from as int);
            lemma_word_len(first);
            assert(first.skip(word_len(first) as int) =~= after_method);
            assert(first.take(word_len(first) as int) =~= s.subrange(
                method_from as int,
                method_to as int,
            ));
        } else {
            assert(s.skip(method_from as int) =~= Seq::<char>::empty());
        }
        if path_from < s.len() {
            let second = s.skip(path_from as int);
            lemma_word_len(second);
            assert(second.take(word_len(second) as int) =~= s.subrange(
                path_from as int,
                path_to as int,
            ));
        } else {
            assert(s.skip(path_from as int) =~= Seq::<char>::empty());
        }
    }
    if path_from == path_to {
        return Err(RequestError::Unparseable);
    }
    let method = if spells(&chars, method_from, method_to, "GET") {
        RequestType::GET
    } else if spells(&chars, method_from, method_to, "POST") {
        RequestType::POST
    } else {
        return Err(RequestError::UnsupportedMethod);
    };
    let path = from_chars(&chars, path_from, path_to);
    Ok(Request { method, path })
}

} // verus!
