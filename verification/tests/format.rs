use hittery::text::{format_decimal, from_chars, join_lines, split_lines, to_chars};
use hittery::{bind_address, format_response, Response};

const SERVER: &str = "Server: hittery (timelessnesses' own http server)";
const PADDING: &str = "            ";

fn formatted(status: u16, body: &str) -> String {
    format_response(Response { status, body: body.to_string() })
}

fn expected(status: u16, length: usize, transmitted: &str) -> String {
    format!(
        "HTTP/1.1 {}\r\n{}\r\nContent-Type: text/plain\r\nContent-Length: {}\r\n\r\n{}\r\n{}",
        status, SERVER, length, transmitted, PADDING
    )
}

fn content_length(text: &str) -> usize {
    let line = text
        .split("\r\n")
        .find(|line| line.starts_with("Content-Length: "))
        .expect("a Content-Length header");
    line["Content-Length: ".len()..].parse().expect("a number")
}

fn has_bare_line_feed(text: &str) -> bool {
    let bytes = text.as_bytes();
    (0..bytes.len()).any(|i| bytes[i] == b'\n' && (i == 0 || bytes[i - 1] != b'\r'))
}

const BODIES: [&str; 14] = [
    "",
    "Hello, world!",
    "one\ntwo",
    "one\r\ntwo",
    "one\rtwo",
    "ends with newline\n",
    "ends with crlf\r\n",
    "ends with cr\r",
    "\n",
    "\n\n\n",
    "\r\r\n\n\r",
    "héllo wörld — ünïcödé ✓",
    "tabs\tand  spaces ",
    "a\n\nb\r\n\r\nc",
];

#[test]
fn formats_the_hello_world_response_exactly() {
    assert_eq!(formatted(200, "Hello, world!"), expected(200, 13, "Hello, world!"));
}

#[test]
fn formats_an_empty_body() {
    assert_eq!(formatted(204, ""), expected(204, 0, ""));
}

#[test]
fn status_is_rendered_in_decimal_without_reason_phrase() {
    assert!(formatted(0, "x").starts_with("HTTP/1.1 0\r\n"));
    assert!(formatted(7, "x").starts_with("HTTP/1.1 7\r\n"));
    assert!(formatted(404, "x").starts_with("HTTP/1.1 404\r\n"));
    assert!(formatted(65535, "x").starts_with("HTTP/1.1 65535\r\n"));
}

#[test]
fn headers_come_in_order_and_a_blank_line_follows() {
    let text = formatted(200, "body");
    let lines: Vec<&str> = text.split("\r\n").collect();
    assert_eq!(
        lines,
        vec![
            "HTTP/1.1 200",
            SERVER,
            "Content-Type: text/plain",
            "Content-Length: 4",
            "",
            "body",
            PADDING
        ]
    );
}

#[test]
fn content_length_is_the_byte_length_of_the_body() {
    for body in BODIES {
        let text = formatted(200, body);
        assert_eq!(content_length(&text), body.len(), "body {:?}", body);
    }
    assert_eq!(content_length(&formatted(200, "é")), 2);
    assert_eq!(content_length(&formatted(200, "✓✓")), 6);
    assert_eq!(content_length(&formatted(200, "a\nb")), 3);
    assert_eq!(content_length(&formatted(200, "a\r\nb")), 4);
}

#[test]
fn content_length_of_a_long_body_has_all_its_digits() {
    let body = "x".repeat(12345);
    let text = formatted(200, &body);
    assert!(text.contains("\r\nContent-Length: 12345\r\n\r\n"));
    assert_eq!(content_length(&text), 12345);
}

#[test]
fn no_bare_line_feed_appears_in_the_output() {
    for body in BODIES {
        let text = formatted(200, body);
        assert!(!has_bare_line_feed(&text), "body {:?}", body);
    }
}

#[test]
fn line_feeds_of_the_body_become_crlf() {
    assert_eq!(formatted(200, "one\ntwo"), expected(200, 7, "one\r\ntwo"));
    assert_eq!(formatted(200, "one\r\ntwo"), expected(200, 8, "one\r\ntwo"));
    assert_eq!(formatted(200, "a\n\nb"), expected(200, 4, "a\r\n\r\nb"));
}

#[test]
fn lone_carriage_returns_stay_inside_a_line() {
    assert_eq!(formatted(200, "one\rtwo"), expected(200, 7, "one\rtwo"));
}

#[test]
fn trailing_line_ending_of_the_body_makes_an_empty_line() {
    assert_eq!(formatted(200, "text\n"), expected(200, 5, "text\r\n"));
    assert_eq!(formatted(200, "text\r\n"), expected(200, 6, "text\r\n"));
    assert_eq!(formatted(200, "\n"), expected(200, 1, "\r\n"));
}

#[test]
fn trailing_carriage_return_of_the_body_is_taken_by_the_line_ending() {
    assert_eq!(formatted(200, "text\r"), expected(200, 5, "text"));
}

#[test]
fn output_matches_rejoining_the_lines_of_the_line_feed_template() {
    for body in BODIES {
        for status in [200u16, 404, 500] {
            let template = format!(
                "HTTP/1.1 {}\n{}\nContent-Type: text/plain\nContent-Length: {}\n\n{}\n{}",
                status,
                SERVER,
                body.len(),
                body,
                PADDING
            );
            let rejoined = template.lines().collect::<Vec<&str>>().join("\r\n");
            assert_eq!(formatted(status, body), rejoined, "body {:?}", body);
        }
    }
}

#[test]
fn formatting_the_same_response_twice_gives_the_same_text() {
    for body in BODIES {
        assert_eq!(formatted(200, body), formatted(200, body));
    }
}

#[test]
fn decimal_rendering() {
    assert_eq!(format_decimal(0), "0");
    assert_eq!(format_decimal(9), "9");
    assert_eq!(format_decimal(10), "10");
    assert_eq!(format_decimal(105), "105");
    assert_eq!(format_decimal(1000), "1000");
    assert_eq!(format_decimal(65535), "65535");
    assert_eq!(format_decimal(usize::MAX), usize::MAX.to_string());
    for n in 0..2000usize {
        assert_eq!(format_decimal(n), n.to_string());
    }
}

#[test]
fn characters_round_trip() {
    for text in ["", "a", "héllo ✓", "line\nbreak\r\n"] {
        let chars = to_chars(text);
        assert_eq!(chars, text.chars().collect::<Vec<char>>());
        assert_eq!(from_chars(&chars, 0, chars.len()), text);
    }
    let chars = to_chars("héllo ✓");
    assert_eq!(from_chars(&chars, 1, 4), "éll");
    assert_eq!(from_chars(&chars, 6, 7), "✓");
    assert_eq!(from_chars(&chars, 3, 3), "");
}

#[test]
fn lines_are_split_as_the_standard_library_splits_them() {
    for text in [
        "",
        "one",
        "one\n",
        "one\ntwo",
        "one\r\ntwo\r\n",
        "\n",
        "\n\n",
        "\r\n",
        "\r",
        "a\rb",
        "a\r",
        "a\r\r\nb",
        "a\n\rb",
        "foo\nbar\n\r\nbaz\r",
        "héllo\nwörld ✓\n",
        "            ",
    ] {
        let expected: Vec<String> = text.lines().map(|line| line.to_string()).collect();
        assert_eq!(split_lines(text), expected, "text {:?}", text);
    }
}

#[test]
fn joining_puts_the_separator_between_neighbours_only() {
    let none: Vec<String> = Vec::new();
    assert_eq!(join_lines(&none, "\r\n"), "");
    assert_eq!(join_lines(&vec!["a".to_string()], "\r\n"), "a");
    assert_eq!(join_lines(&vec!["a".to_string(), "b".to_string()], "\r\n"), "a\r\nb");
    assert_eq!(
        join_lines(&vec!["".to_string(), "".to_string(), "c".to_string()], ", "),
        ", , c"
    );
}

#[test]
fn bind_address_joins_host_and_port() {
    assert_eq!(bind_address("127.0.0.1", 8080), "127.0.0.1:8080");
    assert_eq!(bind_address("localhost", 0), "localhost:0");
    assert_eq!(bind_address("::1", 65535), "::1:65535");
    assert_eq!(bind_address("", 80), ":80");
}
