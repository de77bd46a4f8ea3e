use tiny_httpd::response::Response;
use tiny_httpd::status::StatusCode;
use tiny_httpd::wire::{ends_head, push_ascii, push_bytes, push_decimal};

fn decimal(n: usize) -> Vec<u8> {
    let mut buf = Vec::new();
    push_decimal(&mut buf, n);
    buf
}

fn status_line(code: StatusCode) -> (Vec<u8>, usize) {
    let mut buf = Vec::new();
    let size = code.write(&mut buf);
    (buf, size)
}

/// Splits a serial form at the blank line and reads the declared length.
fn declared_and_body(wire: &[u8]) -> (usize, Vec<u8>) {
    let text = String::from_utf8_lossy(wire).into_owned();
    let split = text.find("\r\n\r\n").unwrap();
    let head = &text[..split];
    let line = head.lines().find(|l| l.starts_with("Content-Length: ")).unwrap();
    let declared = line["Content-Length: ".len()..].parse::<usize>().unwrap();
    (declared, wire[split + 4..].to_vec())
}

#[test]
fn decimal_of_zero_is_one_digit() {
    assert_eq!(decimal(0), b"0".to_vec());
}

#[test]
fn decimal_of_single_digits() {
    assert_eq!(decimal(7), b"7".to_vec());
    assert_eq!(decimal(9), b"9".to_vec());
}

#[test]
fn decimal_of_ten_has_two_digits() {
    assert_eq!(decimal(10), b"10".to_vec());
}

#[test]
fn decimal_of_larger_numbers() {
    assert_eq!(decimal(100), b"100".to_vec());
    assert_eq!(decimal(1234567890), b"1234567890".to_vec());
    assert_eq!(decimal(usize::MAX), format!("{}", usize::MAX).into_bytes());
}

#[test]
fn decimal_is_appended_behind_what_is_there() {
    let mut buf = b"n=".to_vec();
    push_decimal(&mut buf, 42);
    assert_eq!(buf, b"n=42".to_vec());
}

#[test]
fn decimal_reads_back_as_the_number() {
    for n in [0usize, 1, 9, 10, 11, 99, 100, 101, 4096, 65535, 1_000_000] {
        let text = String::from_utf8(decimal(n)).unwrap();
        assert_eq!(text.parse::<usize>().unwrap(), n);
    }
}

#[test]
fn push_ascii_appends_and_counts() {
    let mut buf = b"a".to_vec();
    let count = push_ascii(&mut buf, "bc\r\n");
    assert_eq!(count, 4);
    assert_eq!(buf, b"abc\r\n".to_vec());
    assert_eq!(push_ascii(&mut buf, ""), 0);
    assert_eq!(buf, b"abc\r\n".to_vec());
}

#[test]
fn push_bytes_appends_any_bytes() {
    let mut buf = vec![1u8];
    push_bytes(&mut buf, &[0xff, 0x00, 0x80]);
    assert_eq!(buf, vec![1u8, 0xff, 0x00, 0x80]);
}

#[test]
fn head_ends_with_blank_line() {
    assert!(ends_head(&b"GET / HTTP/1.1\r\n\r\n".to_vec()));
    assert!(ends_head(&b"\r\n\r\n".to_vec()));
}

#[test]
fn head_does_not_end_without_blank_line() {
    assert!(!ends_head(&b"".to_vec()));
    assert!(!ends_head(&b"\r\n".to_vec()));
    assert!(!ends_head(&b"\n\r\n".to_vec()));
    assert!(!ends_head(&b"GET / HTTP/1.1\r\n".to_vec()));
    assert!(!ends_head(&b"GET / HTTP/1.1\n\n".to_vec()));
    assert!(!ends_head(&b"GET / HTTP/1.1\r\n\r\nx".to_vec()));
    assert!(!ends_head(&b"\r\n\r\r".to_vec()));
    assert!(!ends_head(&b"\n\n\r\n".to_vec()));
    assert!(!ends_head(&b"\r\r\r\n".to_vec()));
}

#[test]
fn status_line_of_success() {
    let (line, size) = status_line(StatusCode::Okay);
    assert_eq!(line, b"HTTP/1.1 200 OK\r\n".to_vec());
    assert_eq!(size, 17);
}

#[test]
fn status_line_of_not_found() {
    let (line, size) = status_line(StatusCode::NotFound);
    assert_eq!(line, b"HTTP/1.1 404 Not Found\r\n".to_vec());
    assert_eq!(size, 24);
}

#[test]
fn status_line_of_error() {
    let (line, size) = status_line(StatusCode::Error);
    assert_eq!(line, b"HTTP/1.1 500 Internal Server Error\r\n".to_vec());
    assert_eq!(size, 36);
}

#[test]
fn status_line_is_appended() {
    let mut buf = b"x".to_vec();
    StatusCode::NotFound.write(&mut buf);
    assert_eq!(buf, b"xHTTP/1.1 404 Not Found\r\n".to_vec());
}

#[test]
fn new_response_is_success_without_body() {
    let r = Response::new();
    assert_eq!(r.code, StatusCode::Okay);
    assert!(r.body.is_empty());
}

#[test]
fn response_without_body_on_the_wire() {
    let r = Response::new();
    let mut buf = Vec::new();
    let size = r.write(&mut buf);
    assert_eq!(size, 0);
    assert_eq!(
        buf,
        b"HTTP/1.1 200 OK\r\nContent-Length: 0\r\nContent-type: text/plain; charset=UTF-8\r\n\r\n"
            .to_vec()
    );
}

#[test]
fn response_with_body_on_the_wire() {
    let mut r = Response::new();
    r.code = StatusCode::NotFound;
    r.body = b"no such thing".to_vec();
    let mut buf = b"<".to_vec();
    r.write(&mut buf);
    assert_eq!(
        buf,
        b"<HTTP/1.1 404 Not Found\r\nContent-Length: 13\r\nContent-type: text/plain; charset=UTF-8\r\n\r\nno such thing"
            .to_vec()
    );
}

#[test]
fn declared_length_is_the_length_of_the_body() {
    for len in [0usize, 1, 9, 10, 99, 100, 1023, 5000] {
        let mut r = Response::new();
        r.body = vec![b'x'; len];
        let mut buf = Vec::new();
        r.write(&mut buf);
        let (declared, body) = declared_and_body(&buf);
        assert_eq!(declared, len);
        assert_eq!(body, r.body);
    }
}

#[test]
fn body_is_written_as_it_is() {
    let mut r = Response::new();
    r.body = vec![0x00, 0xff, b'\r', b'\n', b'\r', b'\n', 0x80];
    let mut buf = Vec::new();
    r.write(&mut buf);
    assert!(buf.ends_with(&[0x00, 0xff, b'\r', b'\n', b'\r', b'\n', 0x80]));
    assert!(String::from_utf8_lossy(&buf).contains("Content-Length: 7\r\n"));
}
