use http_server_starter_rust::decimal::{decimal_string, parse_decimal};
use http_server_starter_rust::response::{
    build_response, ok_text_response, plain_response, respond_with, serve_file, Status,
};

#[test]
fn bare_responses_are_a_status_line_and_a_blank_line() {
    assert_eq!(plain_response(Status::Success), b"HTTP/1.1 200 OK\r\n\r\n".to_vec());
    assert_eq!(plain_response(Status::Created), b"HTTP/1.1 201 OK\r\n\r\n".to_vec());
    assert_eq!(plain_response(Status::NotFound), b"HTTP/1.1 404 Not Found\r\n\r\n".to_vec());
}

#[test]
fn status_lines_are_exact() {
    assert_eq!(Status::Success.line(), "HTTP/1.1 200 OK");
    assert_eq!(Status::Created.line(), "HTTP/1.1 201 OK");
    assert_eq!(Status::NotFound.line(), "HTTP/1.1 404 Not Found");
}

#[test]
fn builder_writes_headers_in_order_and_the_body_verbatim() {
    let headers = vec![
        ("B".to_string(), "2".to_string()),
        ("A".to_string(), "1".to_string()),
        ("B".to_string(), "3".to_string()),
    ];
    let bytes = build_response("HTTP/1.1 418 I'm a teapot", &headers, b"\r\n\x00\xff");
    assert_eq!(
        bytes,
        b"HTTP/1.1 418 I'm a teapot\r\nB: 2\r\nA: 1\r\nB: 3\r\n\r\n\r\n\x00\xff".to_vec()
    );
}

#[test]
fn builder_adds_no_content_length_of_its_own() {
    let bytes = build_response("S", &Vec::new(), b"body");
    assert_eq!(bytes, b"S\r\n\r\nbody".to_vec());
}

#[test]
fn builder_encodes_text_as_utf8() {
    let headers = vec![("N\u{00e4}me".to_string(), "\u{20ac}".to_string())];
    let bytes = build_response("\u{00e9}", &headers, b"");
    assert_eq!(bytes, "\u{00e9}\r\nN\u{00e4}me: \u{20ac}\r\n\r\n".as_bytes().to_vec());
}

#[test]
fn text_response_announces_type_and_length() {
    assert_eq!(
        ok_text_response("abc"),
        b"HTTP/1.1 200 OK\r\nContent-Type: text/plain\r\nContent-Length: 3\r\n\r\nabc".to_vec()
    );
    assert_eq!(
        ok_text_response(""),
        b"HTTP/1.1 200 OK\r\nContent-Type: text/plain\r\nContent-Length: 0\r\n\r\n".to_vec()
    );
}

#[test]
fn text_response_counts_bytes_not_characters() {
    assert_eq!(
        ok_text_response("h\u{00e9}\u{20ac}"),
        "HTTP/1.1 200 OK\r\nContent-Type: text/plain\r\nContent-Length: 6\r\n\r\nh\u{00e9}\u{20ac}"
            .as_bytes()
            .to_vec()
    );
}

#[test]
fn content_response_carries_any_type() {
    assert_eq!(
        respond_with("image/x", &[1, 2, 3, 4, 5, 6, 7, 8, 9, 10, 11, 12]),
        [
            &b"HTTP/1.1 200 OK\r\nContent-Type: image/x\r\nContent-Length: 12\r\n\r\n"[..],
            &[1, 2, 3, 4, 5, 6, 7, 8, 9, 10, 11, 12][..]
        ]
        .concat()
    );
}

#[test]
fn a_file_that_was_read_is_served_as_octet_stream() {
    assert_eq!(
        serve_file(Some(b"hello".to_vec())),
        b"HTTP/1.1 200 OK\r\nContent-Type: application/octet-stream\r\nContent-Length: 5\r\n\r\nhello"
            .to_vec()
    );
    assert_eq!(
        serve_file(Some(Vec::new())),
        b"HTTP/1.1 200 OK\r\nContent-Type: application/octet-stream\r\nContent-Length: 0\r\n\r\n"
            .to_vec()
    );
}

#[test]
fn a_file_that_could_not_be_read_is_not_found() {
    assert_eq!(serve_file(None), b"HTTP/1.1 404 Not Found\r\n\r\n".to_vec());
}

#[test]
fn numbers_are_written_in_decimal() {
    assert_eq!(decimal_string(0), "0");
    assert_eq!(decimal_string(7), "7");
    assert_eq!(decimal_string(10), "10");
    assert_eq!(decimal_string(1234567890), "1234567890");
    assert_eq!(decimal_string(usize::MAX), usize::MAX.to_string());
}

#[test]
fn numbers_are_read_from_digits_with_an_optional_plus() {
    assert_eq!(parse_decimal("0"), Some(0));
    assert_eq!(parse_decimal("5"), Some(5));
    assert_eq!(parse_decimal("+5"), Some(5));
    assert_eq!(parse_decimal("0042"), Some(42));
    assert_eq!(parse_decimal(&usize::MAX.to_string()), Some(usize::MAX));
}

#[test]
fn other_texts_are_no_numbers() {
    for text in ["", "+", "-1", "-0", "++1", "1+", " 1", "1 ", "1_000", "0x10", "1.0", "abc", "\u{0661}"] {
        assert_eq!(parse_decimal(text), None, "{:?}", text);
    }
}

#[test]
fn numbers_that_do_not_fit_are_not_read() {
    let mut text = usize::MAX.to_string();
    text.push('0');
    assert_eq!(parse_decimal(&text), None);
    assert_eq!(parse_decimal("99999999999999999999999999999999999999999"), None);
    let max = usize::MAX.to_string();
    let (head, last) = max.split_at(max.len() - 1);
    let next = format!("{}{}", head, last.parse::<u8>().unwrap() + 1);
    assert_eq!(parse_decimal(&next), None);
}

#[test]
fn what_is_written_is_read_back() {
    for n in [0usize, 1, 9, 10, 99, 100, 4221, 65535, usize::MAX - 1, usize::MAX] {
        assert_eq!(parse_decimal(&decimal_string(n)), Some(n));
    }
}
