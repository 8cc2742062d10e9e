use http_server_starter_rust::request::{parse_first_line, parse_header, parse_request, ParseError};

fn lines(raw: &[&str]) -> Vec<String> {
    raw.iter().map(|line| line.to_string()).collect()
}

#[test]
fn request_line_alone_gives_method_path_and_no_headers() {
    let request = parse_request(&lines(&["GET / HTTP/1.1"])).unwrap();
    assert_eq!(request.method, "GET");
    assert_eq!(request.path, "/");
    assert_eq!(request.header_count(), 0);
    assert!(request.header("Host").is_none());
}

#[test]
fn headers_are_split_at_the_first_colon_and_trimmed() {
    let request = parse_request(&lines(&[
        "GET /index.html HTTP/1.1",
        "Host: localhost:4221",
        "User-Agent:   curl/7.64.1  ",
        "Accept:*/*",
    ]))
    .unwrap();
    assert_eq!(request.method, "GET");
    assert_eq!(request.path, "/index.html");
    assert_eq!(request.header_count(), 3);
    assert_eq!(request.header("Host").unwrap(), "localhost:4221");
    assert_eq!(request.header("User-Agent").unwrap(), "curl/7.64.1");
    assert_eq!(request.header("Accept").unwrap(), "*/*");
}

#[test]
fn a_later_header_replaces_an_earlier_one_of_the_same_name() {
    let request = parse_request(&lines(&["GET / HTTP/1.1", "X: first", "Y: other", "X: second"]))
        .unwrap();
    assert_eq!(request.header_count(), 2);
    assert_eq!(request.header("X").unwrap(), "second");
    assert_eq!(request.header("Y").unwrap(), "other");
}

#[test]
fn header_names_keep_their_case_and_are_matched_exactly() {
    let request = parse_request(&lines(&["GET / HTTP/1.1", "user-agent: a", "User-Agent: b"]))
        .unwrap();
    assert_eq!(request.header_count(), 2);
    assert_eq!(request.header("user-agent").unwrap(), "a");
    assert_eq!(request.header("User-Agent").unwrap(), "b");
    assert!(request.header("USER-AGENT").is_none());
}

#[test]
fn a_header_name_is_not_trimmed() {
    let request = parse_request(&lines(&["GET / HTTP/1.1", " Host : x"])).unwrap();
    assert!(request.header("Host").is_none());
    assert_eq!(request.header(" Host ").unwrap(), "x");
}

#[test]
fn a_header_may_have_an_empty_name_or_an_empty_value() {
    let request = parse_request(&lines(&["GET / HTTP/1.1", ": v", "Empty:", "Blank:   "])).unwrap();
    assert_eq!(request.header("").unwrap(), "v");
    assert_eq!(request.header("Empty").unwrap(), "");
    assert_eq!(request.header("Blank").unwrap(), "");
}

#[test]
fn header_values_lose_unicode_whitespace_at_both_ends_only() {
    let request =
        parse_request(&lines(&["GET / HTTP/1.1", "X:\u{00A0}\t a \u{2003} b\u{3000}\u{0085}"]))
            .unwrap();
    assert_eq!(request.header("X").unwrap(), "a \u{2003} b");
}

#[test]
fn zero_width_space_is_no_whitespace() {
    let request = parse_request(&lines(&["GET / HTTP/1.1", "X: \u{200B}v"])).unwrap();
    assert_eq!(request.header("X").unwrap(), "\u{200B}v");
}

#[test]
fn no_line_at_all_is_a_missing_request_line() {
    let outcome = parse_request(&Vec::new());
    assert_eq!(outcome.err(), Some(ParseError::MissingRequestLine));
}

#[test]
fn a_request_line_with_fewer_than_two_words_is_malformed() {
    assert_eq!(parse_request(&lines(&["GET"])).err(), Some(ParseError::MalformedRequestLine));
    assert_eq!(parse_request(&lines(&[""])).err(), Some(ParseError::MalformedRequestLine));
    assert_eq!(parse_request(&lines(&["  \t "])).err(), Some(ParseError::MalformedRequestLine));
    assert_eq!(
        parse_request(&lines(&["GET", "Host: x"])).err(),
        Some(ParseError::MalformedRequestLine)
    );
}

#[test]
fn a_header_line_without_colon_is_a_malformed_header() {
    assert_eq!(
        parse_request(&lines(&["GET / HTTP/1.1", "BadHeader"])).err(),
        Some(ParseError::MalformedHeader)
    );
    assert_eq!(
        parse_request(&lines(&["GET / HTTP/1.1", "Host: x", "BadHeader", "Accept: y"])).err(),
        Some(ParseError::MalformedHeader)
    );
    assert_eq!(
        parse_request(&lines(&["POST /files/a", ""])).err(),
        Some(ParseError::MalformedHeader)
    );
}

#[test]
fn a_malformed_request_line_is_reported_before_a_malformed_header() {
    assert_eq!(
        parse_request(&lines(&["", "BadHeader"])).err(),
        Some(ParseError::MalformedRequestLine)
    );
}

#[test]
fn the_protocol_version_is_accepted_and_may_be_absent() {
    let with = parse_request(&lines(&["GET /a HTTP/1.1"])).unwrap();
    let without = parse_request(&lines(&["GET /a"])).unwrap();
    let other = parse_request(&lines(&["GET /a SPDY/9 and more"])).unwrap();
    assert_eq!((with.method.as_str(), with.path.as_str()), ("GET", "/a"));
    assert_eq!((without.method.as_str(), without.path.as_str()), ("GET", "/a"));
    assert_eq!((other.method.as_str(), other.path.as_str()), ("GET", "/a"));
}

#[test]
fn any_method_and_any_path_are_taken_as_they_are() {
    let request = parse_request(&lines(&["brew %zz?q=\u{00e9} HTCPCP/1.0"])).unwrap();
    assert_eq!(request.method, "brew");
    assert_eq!(request.path, "%zz?q=\u{00e9}");
}

#[test]
fn parsing_the_same_lines_twice_gives_equal_requests() {
    let input = lines(&["POST /files/a.txt HTTP/1.1", "Content-Length: 5", "Host: h", "Host: i"]);
    let first = parse_request(&input).unwrap();
    let second = parse_request(&input).unwrap();
    assert_eq!(first.method, second.method);
    assert_eq!(first.path, second.path);
    assert_eq!(first.header_count(), second.header_count());
    for name in ["Content-Length", "Host", "Absent"] {
        assert_eq!(first.header(name), second.header(name));
    }
    let bad = lines(&["GET / HTTP/1.1", "nope"]);
    assert_eq!(parse_request(&bad).err(), parse_request(&bad).err());
}

#[test]
fn first_line_gives_its_first_three_words() {
    let parts = parse_first_line(&"GET /echo/abc HTTP/1.1".to_string()).unwrap();
    assert_eq!(parts, ("GET".to_string(), "/echo/abc".to_string(), "HTTP/1.1".to_string()));
}

#[test]
fn first_line_words_are_separated_by_any_run_of_ascii_whitespace() {
    let parts = parse_first_line(&" \tGET\t\t/a \r\n HTTP/1.0 \x0C trailing".to_string()).unwrap();
    assert_eq!(parts, ("GET".to_string(), "/a".to_string(), "HTTP/1.0".to_string()));
}

#[test]
fn first_line_does_not_split_at_other_whitespace() {
    let parts = parse_first_line(&"GET\u{00A0}/a /b\u{000B}c".to_string()).unwrap();
    assert_eq!(parts, ("GET\u{00A0}/a".to_string(), "/b\u{000B}c".to_string(), String::new()));
}

#[test]
fn first_line_with_two_words_has_an_empty_version() {
    let parts = parse_first_line(&"GET /".to_string()).unwrap();
    assert_eq!(parts, ("GET".to_string(), "/".to_string(), String::new()));
}

#[test]
fn first_line_with_one_word_or_none_is_malformed() {
    assert_eq!(parse_first_line(&"GET".to_string()), Err(ParseError::MalformedRequestLine));
    assert_eq!(parse_first_line(&"   GET   ".to_string()), Err(ParseError::MalformedRequestLine));
    assert_eq!(parse_first_line(&String::new()), Err(ParseError::MalformedRequestLine));
}

#[test]
fn header_line_is_split_once() {
    assert_eq!(
        parse_header(&"Host: localhost:4221".to_string()),
        Some(("Host".to_string(), "localhost:4221".to_string()))
    );
    assert_eq!(parse_header(&":".to_string()), Some((String::new(), String::new())));
    assert_eq!(parse_header(&"no colon here".to_string()), None);
    assert_eq!(parse_header(&String::new()), None);
}
