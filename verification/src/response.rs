//! The response side of the protocol: what a handler hands back, and how it
//! is laid out on the wire.
//!
//! A formatted response is a list of lines joined with CRLF: the status line,
//! three headers, an empty line, then the lines of the body followed by a
//! line of padding. The body's own line endings are normalised to CRLF on the
//! way; `Content-Length` counts the bytes of the body as it was handed in.

use crate::text::{
    decimal, join, join_lines, lemma_decimal_digits, lemma_join_crlf, lemma_join_first,
    lemma_line_len_is, lemma_lines, lemma_lines_first, lines, push_decimal, split_lines, texts,
};
use vstd::prelude::*;
use vstd::string::{to_string_from_display_ensures, StringExecFns, StringSliceAdditionalSpecFns};
use vstd::utf8::encode_utf8;

verus! {

/// A status code and a body, produced fresh for each request.
#[derive(Debug)]
pub struct Response {
    pub status: u16,
    pub body: String,
}

/// What a `Response` holds.
pub struct ResponseView {
    pub status: u16,
    pub body: Seq<char>,
}

impl View for Response {
    type V = ResponseView;

    open spec fn view(&self) -> ResponseView {
        ResponseView { status: self.status, body: self.body@ }
    }
}

impl Clone for Response {
    fn clone(&self) -> (copy: Self)
        ensures
            copy@ == self@,
    {
        Response { status: self.status, body: self.body.clone() }
    }
}

/// Values that can be turned into a `Response`.
pub trait IntoResponse {
    /// Whether `response` is a response this value may turn into. An
    /// implementation that states nothing admits every response.
    open spec fn yields(&self, response: Response) -> bool {
        true
    }

    fn into_response(&self) -> (response: Response)
        ensures
            self.yields(response),
    ;
}

/// Anything printable is a successful response whose body is its printed form.
impl<T: core::fmt::Display> IntoResponse for T {
    open spec fn yields(&self, response: Response) -> bool {
        response.status == 200 && to_string_from_display_ensures::<T>(self, response.body)
    }

    fn into_response(&self) -> (response: Response) {
        Response { status: 200, body: self.to_string() }
    }
}

/// A response turns into a copy of itself.
impl IntoResponse for Response {
    open spec fn yields(&self, response: Response) -> bool {
        response@ == self@
    }

    fn into_response(&self) -> (response: Response) {
        self.clone()
    }
}

/// `value` as a boxed response-producing value.
pub open spec fn boxed_response<T: IntoResponse + 'static>(value: T) -> Box<dyn IntoResponse> {
    Box::new(value)
}

/// Boxing of response-producing values, for handlers written as functions.
pub trait IntoBoxedResponse: IntoResponse + Sized + 'static {
    fn into_boxed_response(self) -> Box<dyn IntoResponse>
        returns
            boxed_response(self),
    {
        let boxed: Box<dyn IntoResponse> = Box::new(self);
        return boxed;
    }
}

impl<T: IntoResponse + 'static> IntoBoxedResponse for T {
}

/// The line ending of the wire format.
pub open spec fn crlf() -> Seq<char> {
    "\r\n"@
}

/// The status line: protocol version and status code.
pub open spec fn status_line(status: u16) -> Seq<char> {
    "HTTP/1.1 "@ + decimal(status as nat)
}

/// The header that names the server.
pub open spec fn server_header() -> Seq<char> {
    "Server: hittery (timelessnesses' own http server)"@
}

/// The header that declares the body to be plain text.
pub open spec fn content_type_header() -> Seq<char> {
    "Content-Type: text/plain"@
}

/// The header that states the length of `body` in bytes of UTF-8.
pub open spec fn content_length_header(body: Seq<char>) -> Seq<char> {
    "Content-Length: "@ + decimal(encode_utf8(body).len())
}

/// The line that closes every response.
pub open spec fn padding() -> Seq<char> {
    "            "@
}

/// What follows the empty line: the lines of the body, then the padding.
pub open spec fn body_lines(body: Seq<char>) -> Seq<Seq<char>> {
    lines(body + "\n"@ + padding())
}

/// The lines of a formatted response.
pub open spec fn response_lines(response: ResponseView) -> Seq<Seq<char>> {
    seq![
        status_line(response.status),
        server_header(),
        content_type_header(),
        content_length_header(response.body),
        Seq::empty(),
    ] + body_lines(response.body)
}

/// A response as it goes over the wire.
pub open spec fn wire_format(response: ResponseView) -> Seq<char> {
    join(response_lines(response), crlf())
}

/// The response laid out with bare line feeds, before its lines are joined
/// with CRLF.
pub open spec fn template(response: ResponseView) -> Seq<char> {
    status_line(response.status) + "\n"@ + server_header() + "\n"@ + content_type_header()
        + "\n"@ + content_length_header(response.body) + "\n"@ + "\n"@ + response.body + "\n"@
        + padding()
}

/// Everything up to and including the empty line: the status line and the
/// three headers, each ended by CRLF, then one more CRLF.
pub open spec fn head(response: ResponseView) -> Seq<char> {
    status_line(response.status) + crlf() + server_header() + crlf() + content_type_header()
        + crlf() + "Content-Length: "@ + decimal(encode_utf8(response.body).len()) + crlf()
        + crlf()
}

/// Whether every line feed of `text` directly follows a carriage return.
pub open spec fn crlf_delimited(text: Seq<char>) -> bool {
    forall|i: int|
        0 <= i < text.len() && #[trigger] text[i] == '\n' ==> i > 0 && text[i - 1] == '\r'
}

/// A formatted response is its head followed by the lines of the body block
/// joined with CRLF. In particular the number in the `Content-Length` header
/// is the length of the body in bytes of UTF-8, whatever the body holds,
/// line breaks included.
pub proof fn lemma_content_length(response: ResponseView)
    ensures
        wire_format(response) == head(response) + join(body_lines(response.body), crlf()),
{
    let tail = body_lines(response.body);
    let separator = crlf();
    reveal_strlit("\n");
    lemma_lines(response.body + "\n"@ + padding());
    let l0 = response_lines(response);
    let l1 = l0.drop_first();
    let l2 = l1.drop_first();
    let l3 = l2.drop_first();
    let l4 = l3.drop_first();
    let l5 = l4.drop_first();
    lemma_join_first(l0, separator);
    lemma_join_first(l1, separator);
    lemma_join_first(l2, separator);
    lemma_join_first(l3, separator);
    lemma_join_first(l4, separator);
    assert(l5 =~= tail);
    assert(l4[0] =~= Seq::<char>::empty());
    assert(wire_format(response) =~= head(response) + join(tail, separator));
}

/// No formatted response holds a bare line feed: every line is ended by CRLF.
pub proof fn lemma_no_bare_line_feed(response: ResponseView)
    ensures
        crlf_delimited(wire_format(response)),
{
    let all = response_lines(response);
    reveal_strlit("HTTP/1.1 ");
    reveal_strlit("Server: hittery (timelessnesses' own http server)");
    reveal_strlit("Content-Type: text/plain");
    reveal_strlit("Content-Length: ");
    lemma_decimal_digits(response.status as nat);
    lemma_decimal_digits(encode_utf8(response.body).len());
    lemma_lines(response.body + "\n"@ + padding());
    assert forall|k: int, i: int|
        0 <= k < all.len() && 0 <= i < all[k].len() implies #[trigger] all[k][i] != '\n' by {
        if k == 0 {
            let digits = decimal(response.status as nat);
            if i >= 9 {
                assert(all[k][i] == digits[i - 9]);
            }
        } else if k == 3 {
            let digits = decimal(encode_utf8(response.body).len());
            if i >= 16 {
                assert(all[k][i] == digits[i - 16]);
            }
        } else if k >= 5 {
            assert(all[k] == body_lines(response.body)[k - 5]);
        }
    }
    lemma_join_crlf(all);
}

/// A formatted response is the line-feed template with its lines joined by
/// CRLF instead, whichever line endings the body brought along.
pub proof fn lemma_template(response: ResponseView)
    ensures
        wire_format(response) == join(lines(template(response)), crlf()),
{
    reveal_strlit("\n");
    reveal_strlit("HTTP/1.1 ");
    reveal_strlit("Server: hittery (timelessnesses' own http server)");
    reveal_strlit("Content-Type: text/plain");
    reveal_strlit("Content-Length: ");
    lemma_decimal_digits(response.status as nat);
    lemma_decimal_digits(encode_utf8(response.body).len());
    let feed = seq!['\n'];
    assert("\n"@ =~= feed);
    let status = status_line(response.status);
    let length = content_length_header(response.body);
    let block = response.body + feed + padding();
    let after_length = Seq::<char>::empty() + feed + block;
    let after_type = length + feed + after_length;
    let after_server = content_type_header() + feed + after_type;
    let after_status = server_header() + feed + after_server;
    assert(status.last() == decimal(response.status as nat).last());
    assert forall|i: int| 0 <= i < status.len() implies status[i] != '\n' by {
        if i >= 9 {
            assert(status[i] == decimal(response.status as nat)[i - 9]);
        }
    }
    assert(length.last() == decimal(encode_utf8(response.body).len()).last());
    assert forall|i: int| 0 <= i < length.len() implies length[i] != '\n' by {
        if i >= 16 {
            assert(length[i] == decimal(encode_utf8(response.body).len())[i - 16]);
        }
    }
    lemma_lines_first(status, after_status);
    lemma_lines_first(server_header(), after_server);
    lemma_lines_first(content_type_header(), after_type);
    lemma_lines_first(length, after_length);
    lemma_lines_first(Seq::<char>::empty(), block);
    assert(template(response) =~= status + feed + after_status);
    assert(lines(template(response)) =~= response_lines(response));
}

/// A body without line feeds that does not end in a carriage return goes over
/// the wire as it is, followed by CRLF and the padding.
pub proof fn lemma_plain_body(response: ResponseView)
    requires
        forall|i: int| 0 <= i < response.body.len() ==> response.body[i] != '\n',
        response.body.len() > 0 ==> response.body.last() != '\r',
    ensures
        wire_format(response) == head(response) + response.body + crlf() + padding(),
{
    let body = response.body;
    let text = body + "\n"@ + padding();
    reveal_strlit("\n");
    reveal_strlit("            ");
    lemma_content_length(response);
    lemma_line_len_is(text, body.len() as int);
    let rest = text.skip(body.len() as int + 1);
    assert(rest =~= padding());
    lemma_line_len_is(rest, rest.len() as int);
    assert(lines(rest.skip(rest.len() as int)) =~= Seq::<Seq<char>>::empty()) by {
        assert(rest.skip(rest.len() as int).len() == 0);
    }
    assert(lines(rest) =~= seq![rest]);
    assert(text.take(body.len() as int) =~= body);
    assert(body_lines(body) =~= seq![body, padding()]);
    assert(seq![body, padding()].drop_last() =~= seq![body]);
    assert(join(seq![body], crlf()) == body);
    assert(join(body_lines(body), crlf()) =~= body + crlf() + padding());
    assert(wire_format(response) =~= head(response) + body + crlf() + padding());
}

/// Formats `response` for the wire.
pub fn format_response(response: Response) -> (text: String)
    ensures
        text@ == wire_format(response@),
{
    let length: usize = response.body.as_str().as_bytes().len();

    let mut status = String::from_str("HTTP/1.1 ");
    push_decimal(&mut status, response.status as usize);
    let mut content_length = String::from_str("Content-Length: ");
    push_decimal(&mut content_length, length);

    let mut all: Vec<String> = Vec::new();
    all.push(status);
    all.push(String::from_str("Server: hittery (timelessnesses' own http server)"));
    all.push(String::from_str("Content-Type: text/plain"));
    all.push(content_length);
    all.push(String::new());

    let mut rest = response.body;
    rest.append("\n");
    rest.append("            ");
    let mut tail = split_lines(rest.as_str());
    proof {
        assert(texts(all@ + tail@) =~= response_lines(response@));
    }
    all.append(&mut tail);
    join_lines(&all, "\r\n")
}

} // verus!
