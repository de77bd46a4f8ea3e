use tiny_httpd::parser::RequestParser;
use tiny_httpd::text::{chars_of, is_whitespace, same_text};

#[test]
fn method_and_path_of_a_plain_request() {
    let p = RequestParser("GET /index.html HTTP/1.1\r\nHost: example\r\n\r\n");
    assert_eq!(p.method(), Some("GET"));
    assert_eq!(p.path(), Some("/index.html"));
}

#[test]
fn method_and_path_of_root() {
    let p = RequestParser("GET / HTTP/1.1\r\nUser-Agent: test\r\n\r\n");
    assert_eq!(p.method(), Some("GET"));
    assert_eq!(p.path(), Some("/"));
}

#[test]
fn empty_text_has_nothing() {
    let p = RequestParser("");
    assert_eq!(p.method(), None);
    assert_eq!(p.path(), None);
    assert!(p.headers().is_empty());
    assert_eq!(p.header("Host"), None);
}

#[test]
fn first_line_of_white_space_has_no_word() {
    let p = RequestParser("  \t \r\nGET / HTTP/1.1\r\n\r\n");
    assert_eq!(p.method(), None);
    assert_eq!(p.path(), None);
}

#[test]
fn first_line_with_one_word_has_no_path() {
    let p = RequestParser("GET\r\n/second HTTP/1.1\r\n\r\n");
    assert_eq!(p.method(), Some("GET"));
    assert_eq!(p.path(), None);
}

#[test]
fn words_are_split_at_runs_of_white_space() {
    let p = RequestParser(" \t POST \t\t /a/b   HTTP/1.1");
    assert_eq!(p.method(), Some("POST"));
    assert_eq!(p.path(), Some("/a/b"));
}

#[test]
fn words_are_split_at_unicode_white_space() {
    let p = RequestParser("GET\u{3000}/wide\u{a0}HTTP/1.1\r\n\r\n");
    assert_eq!(p.method(), Some("GET"));
    assert_eq!(p.path(), Some("/wide"));
    let q = RequestParser("\u{2003}A\u{85}B\u{1680}C");
    assert_eq!(q.method(), Some("A"));
    assert_eq!(q.path(), Some("B"));
}

#[test]
fn words_keep_characters_that_are_not_white_space() {
    let p = RequestParser("G\u{e9}T /caf\u{e9}\u{200b}x HTTP/1.1\n");
    assert_eq!(p.method(), Some("G\u{e9}T"));
    assert_eq!(p.path(), Some("/caf\u{e9}\u{200b}x"));
}

#[test]
fn first_line_without_ending() {
    let p = RequestParser("GET /x");
    assert_eq!(p.method(), Some("GET"));
    assert_eq!(p.path(), Some("/x"));
    assert!(p.headers().is_empty());
}

#[test]
fn path_that_ends_the_line() {
    let p = RequestParser("GET /x\r\nA: b\r\n\r\n");
    assert_eq!(p.path(), Some("/x"));
    let q = RequestParser("GET /x\nA: b\n\n");
    assert_eq!(q.path(), Some("/x"));
}

#[test]
fn headers_of_a_plain_request() {
    let p = RequestParser("GET / HTTP/1.1\r\nHost: example\r\nUser-Agent: test\r\n\r\n");
    assert_eq!(p.headers(), vec!["Host: example", "User-Agent: test"]);
}

#[test]
fn headers_stop_at_the_first_empty_line() {
    let p = RequestParser("GET / HTTP/1.1\r\nA: 1\r\n\r\nB: 2\r\n\r\n");
    assert_eq!(p.headers(), vec!["A: 1"]);
    assert_eq!(p.header("B"), None);
}

#[test]
fn headers_without_any() {
    let p = RequestParser("GET / HTTP/1.1\r\n\r\n");
    assert!(p.headers().is_empty());
    let q = RequestParser("GET / HTTP/1.1\r\n");
    assert!(q.headers().is_empty());
    let r = RequestParser("GET / HTTP/1.1");
    assert!(r.headers().is_empty());
}

#[test]
fn headers_with_bare_line_feeds() {
    let p = RequestParser("GET / HTTP/1.1\nA: 1\nB: 2\n\nC: 3\n");
    assert_eq!(p.headers(), vec!["A: 1", "B: 2"]);
}

#[test]
fn headers_without_final_ending() {
    let p = RequestParser("GET / HTTP/1.1\r\nA: 1\r\nB: 2");
    assert_eq!(p.headers(), vec!["A: 1", "B: 2"]);
}

#[test]
fn carriage_return_alone_does_not_end_a_line() {
    let p = RequestParser("GET / HTTP/1.1\r\nA: 1\rB: 2\r\n\r\n");
    assert_eq!(p.headers(), vec!["A: 1\rB: 2"]);
}

#[test]
fn carriage_return_stays_on_a_last_line_without_line_feed() {
    let p = RequestParser("GET / HTTP/1.1\r\nA: 1\r");
    assert_eq!(p.headers(), vec!["A: 1\r"]);
}

#[test]
fn only_one_carriage_return_is_taken_off() {
    let p = RequestParser("GET / HTTP/1.1\r\nA: 1\r\r\n\r\n");
    assert_eq!(p.headers(), vec!["A: 1\r"]);
}

#[test]
fn a_line_of_one_carriage_return_is_empty() {
    let p = RequestParser("GET / HTTP/1.1\n\r\nA: 1\n");
    assert!(p.headers().is_empty());
}

#[test]
fn header_by_name() {
    let p = RequestParser("GET / HTTP/1.1\r\nHost: example\r\nUser-Agent: test\r\n\r\n");
    assert_eq!(p.header("User-Agent"), Some("User-Agent: test"));
    assert_eq!(p.header("Host"), Some("Host: example"));
    assert_eq!(p.header("Accept"), None);
}

#[test]
fn header_is_the_first_that_begins_with_the_name() {
    let p = RequestParser("GET / HTTP/1.1\r\nX-A: 1\r\nX-B: 2\r\nX-A: 3\r\n\r\n");
    assert_eq!(p.header("X-"), Some("X-A: 1"));
    assert_eq!(p.header("X-B"), Some("X-B: 2"));
    assert_eq!(p.header("X-A: 3"), Some("X-A: 3"));
}

#[test]
fn header_name_is_matched_exactly_by_case() {
    let p = RequestParser("GET / HTTP/1.1\r\nuser-agent: test\r\n\r\n");
    assert_eq!(p.header("User-Agent"), None);
    assert_eq!(p.header("user-agent"), Some("user-agent: test"));
}

#[test]
fn header_with_empty_name_is_the_first_header() {
    let p = RequestParser("GET / HTTP/1.1\r\nA: 1\r\nB: 2\r\n\r\n");
    assert_eq!(p.header(""), Some("A: 1"));
    let q = RequestParser("GET / HTTP/1.1\r\n\r\n");
    assert_eq!(q.header(""), None);
}

#[test]
fn header_longer_than_the_line_is_not_found() {
    let p = RequestParser("GET / HTTP/1.1\r\nHost\r\n\r\n");
    assert_eq!(p.header("Host: "), None);
    assert_eq!(p.header("Host"), Some("Host"));
}

#[test]
fn first_line_is_never_a_header() {
    let p = RequestParser("GET / HTTP/1.1\r\nHost: x\r\n\r\n");
    assert_eq!(p.header("GET"), None);
}

#[test]
fn parser_agrees_with_the_standard_iterators() {
    let samples = [
        "GET / HTTP/1.1\r\nUser-Agent: test\r\n\r\n",
        "GET /other HTTP/1.1\r\n\r\n",
        "  a  b  c \n d\r\n\r\n e",
        "\n\n",
        "\r\n",
        "x",
        "x\r",
        "a b\r\nh1\nh2\r\n\nh3",
        "one\u{2028}two three\nfour",
    ];
    for text in samples {
        let p = RequestParser(text);
        let line = text.lines().next().unwrap_or("");
        assert_eq!(p.method(), line.split_whitespace().next());
        assert_eq!(p.path(), line.split_whitespace().nth(1));
        let expected: Vec<&str> = text.lines().skip(1).take_while(|l| *l != "").collect();
        assert_eq!(p.headers(), expected);
    }
}

#[test]
fn white_space_is_what_the_standard_library_says() {
    for u in 0u32..0x11_0000 {
        if let Some(c) = char::from_u32(u) {
            assert_eq!(is_whitespace(c), c.is_whitespace(), "U+{:04X}", u);
        }
    }
}

#[test]
fn chars_of_gives_every_character() {
    assert_eq!(chars_of(""), Vec::<char>::new());
    assert_eq!(chars_of("a\u{e9}\u{1f600}z"), vec!['a', '\u{e9}', '\u{1f600}', 'z']);
}

#[test]
fn same_text_compares_characters() {
    assert!(same_text("", ""));
    assert!(same_text("/other", "/other"));
    assert!(!same_text("/other", "/othe"));
    assert!(!same_text("/othe", "/other"));
    assert!(!same_text("/", "/other"));
    assert!(!same_text("abc", "abd"));
}
