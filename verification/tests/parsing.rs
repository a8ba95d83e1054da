use hittery::request::whitespace;
use hittery::{parse_request_line, RequestError, RequestHead, RequestType};

fn parsed(line: &str) -> Result<(RequestType, String), RequestError> {
    parse_request_line(line).map(|request| (request.method, request.path))
}

fn ok(method: RequestType, path: &str) -> Result<(RequestType, String), RequestError> {
    Ok((method, path.to_string()))
}

#[test]
fn parses_get_and_post() {
    assert_eq!(parsed("GET /hello HTTP/1.1"), ok(RequestType::GET, "/hello"));
    assert_eq!(parsed("POST /submit HTTP/1.1"), ok(RequestType::POST, "/submit"));
    assert_eq!(parsed("GET /"), ok(RequestType::GET, "/"));
}

#[test]
fn words_beyond_the_second_are_ignored() {
    assert_eq!(parsed("GET /a b c d"), ok(RequestType::GET, "/a"));
    assert_eq!(parsed("POST /a HTTP/1.1 extra"), ok(RequestType::POST, "/a"));
}

#[test]
fn any_run_of_whitespace_separates_words() {
    assert_eq!(parsed("  GET   /spaced  "), ok(RequestType::GET, "/spaced"));
    assert_eq!(parsed("GET\t/tab\tHTTP/1.1"), ok(RequestType::GET, "/tab"));
    assert_eq!(parsed("\t \x0b\x0cPOST \r\n /mixed"), ok(RequestType::POST, "/mixed"));
    assert_eq!(parsed("GET\u{a0}/nbsp"), ok(RequestType::GET, "/nbsp"));
    assert_eq!(parsed("GET\u{3000}/wide\u{2028}x"), ok(RequestType::GET, "/wide"));
    assert_eq!(parsed("GET\u{85}/nel\u{1680}x"), ok(RequestType::GET, "/nel"));
}

#[test]
fn characters_that_only_look_like_spaces_do_not_separate() {
    assert_eq!(parsed("GET /zero\u{200b}width next"), ok(RequestType::GET, "/zero\u{200b}width"));
    assert_eq!(parsed("GET\u{200b}/x y"), Err(RequestError::UnsupportedMethod));
    assert_eq!(parsed("GET\u{feff} /x"), Err(RequestError::UnsupportedMethod));
}

#[test]
fn path_is_kept_character_for_character() {
    assert_eq!(parsed("GET /a/b/../c?x=1&y=2#frag"), ok(RequestType::GET, "/a/b/../c?x=1&y=2#frag"));
    assert_eq!(parsed("GET /héllo/✓ HTTP/1.1"), ok(RequestType::GET, "/héllo/✓"));
    assert_eq!(parsed("GET no-leading-slash"), ok(RequestType::GET, "no-leading-slash"));
    assert_eq!(parsed("GET GET"), ok(RequestType::GET, "GET"));
}

#[test]
fn unsupported_methods_are_rejected() {
    for line in [
        "DELETE /hello HTTP/1.1",
        "PUT /x",
        "HEAD /",
        "get /lowercase",
        "Get /mixed",
        "GETS /longer",
        "GE /shorter",
        "POS /x",
        "POSTS /x",
        "post /x",
        "/hello GET",
    ] {
        assert_eq!(parsed(line), Err(RequestError::UnsupportedMethod), "line {:?}", line);
    }
}

#[test]
fn fewer_than_two_words_is_unparseable() {
    for line in ["", " ", "\t\t", "GET", "POST", "DELETE", "  GET  ", "/hello", "\u{3000}"] {
        assert_eq!(parsed(line), Err(RequestError::Unparseable), "line {:?}", line);
    }
}

#[test]
fn words_are_split_as_the_standard_library_splits_them() {
    for line in [
        "GET /a",
        " POST\t/b  c ",
        "GET\u{2003}/em\u{2009}thin",
        "GET\u{202f}/narrow\u{205f}math",
        "POST\u{2000}/x\u{200a}y",
        "GET\u{2029}/paragraph x",
        "GET /x\u{1}y z",
    ] {
        let words: Vec<&str> = line.split_whitespace().collect();
        let method = if words[0] == "GET" { RequestType::GET } else { RequestType::POST };
        assert_eq!(parsed(line), ok(method, words[1]), "line {:?}", line);
    }
}

#[test]
fn whitespace_is_the_unicode_white_space_property() {
    for code in 0..=0x11_0000u32 {
        if let Some(c) = char::from_u32(code) {
            assert_eq!(whitespace(c), c.is_whitespace(), "U+{:04X}", code);
        }
    }
}

#[test]
fn head_collects_lines_until_the_empty_one() {
    let mut head = RequestHead::new();
    assert!(!head.is_complete());
    assert!(head.request_line().is_none());
    assert!(head.feed("GET /a HTTP/1.1".to_string()));
    assert!(head.feed("Host: example".to_string()));
    assert!(!head.is_complete());
    assert!(!head.feed(String::new()));
    assert!(head.is_complete());
    assert_eq!(head.request_line().map(|line| line.as_str()), Some("GET /a HTTP/1.1"));
}

#[test]
fn head_ignores_what_follows_the_empty_line() {
    let mut head = RequestHead::new();
    assert!(head.feed("POST /first".to_string()));
    assert!(!head.feed(String::new()));
    assert!(!head.feed("GET /second".to_string()));
    assert!(!head.feed(String::new()));
    assert!(head.is_complete());
    assert_eq!(head.request_line().map(|line| line.as_str()), Some("POST /first"));
    let request = head.parse().expect("the first line parses");
    assert_eq!(request.method, RequestType::POST);
    assert_eq!(request.path, "/first");
}

#[test]
fn head_that_starts_with_an_empty_line_has_no_request_line() {
    let mut head = RequestHead::new();
    assert!(!head.feed(String::new()));
    assert!(!head.feed("GET /late".to_string()));
    assert!(head.request_line().is_none());
    assert_eq!(head.parse().err(), Some(RequestError::Unparseable));
}

#[test]
fn head_cut_short_is_parsed_from_what_arrived() {
    let mut head = RequestHead::new();
    assert!(head.feed("GET /cut".to_string()));
    assert!(!head.is_complete());
    let request = head.parse().expect("the request line arrived");
    assert_eq!(request.method, RequestType::GET);
    assert_eq!(request.path, "/cut");
    assert_eq!(RequestHead::new().parse().err(), Some(RequestError::Unparseable));
}

#[test]
fn head_reports_each_kind_of_malformed_request() {
    let mut unsupported = RequestHead::new();
    unsupported.feed("PATCH /x HTTP/1.1".to_string());
    assert_eq!(unsupported.parse().err(), Some(RequestError::UnsupportedMethod));
    let mut short = RequestHead::new();
    short.feed("GET".to_string());
    assert_eq!(short.parse().err(), Some(RequestError::Unparseable));
}

#[test]
fn a_line_of_spaces_is_not_the_end_of_the_head() {
    let mut head = RequestHead::new();
    assert!(head.feed("   ".to_string()));
    assert!(head.feed("GET /x".to_string()));
    assert_eq!(head.request_line().map(|line| line.as_str()), Some("   "));
    assert_eq!(head.parse().err(), Some(RequestError::Unparseable));
}
