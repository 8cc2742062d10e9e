//! The response builder: the exact bytes of a response, from a status line,
//! headers and a body.

use vstd::prelude::*;
use vstd::string::*;
use vstd::utf8::encode_utf8;
use crate::decimal::{decimal, decimal_string};

verus! {

/// Carriage return.
pub const CR: u8 = 13;

/// Line feed.
pub const LF: u8 = 10;

/// The colon between a header's name and its value.
pub const COLON: u8 = 58;

/// The space after that colon.
pub const SPACE: u8 = 32;

/// The three outcomes this server reports.
#[derive(Clone, Copy, Debug, PartialEq, Eq, Structural)]
pub enum Status {
    /// `200 OK`
    Success,
    /// `201 OK`: a file was stored. The reason phrase is this server's own.
    Created,
    /// `404 Not Found`
    NotFound,
}

impl Status {
    /// The status line, without its line terminator.
    pub open spec fn line_text(self) -> Seq<char> {
        match self {
            Status::Success => "HTTP/1.1 200 OK"@,
            Status::Created => "HTTP/1.1 201 OK"@,
            Status::NotFound => "HTTP/1.1 404 Not Found"@,
        }
    }

    /// The status line, without its line terminator.
    pub fn line(self) -> (text: &'static str)
        ensures
            text@ == self.line_text(),
    {
        match self {
            Status::Success => "HTTP/1.1 200 OK",
            Status::Created => "HTTP/1.1 201 OK",
            Status::NotFound => "HTTP/1.1 404 Not Found",
        }
    }
}

/// The line terminator of the protocol.
pub open spec fn crlf() -> Seq<u8> {
    seq![CR, LF]
}

/// One header line: `name: value` and the line terminator.
pub open spec fn header_line(name: Seq<char>, value: Seq<char>) -> Seq<u8> {
    encode_utf8(name) + seq![COLON, SPACE] + encode_utf8(value) + crlf()
}

/// The header lines of a response, in the order given.
pub open spec fn header_block(headers: Seq<(Seq<char>, Seq<char>)>) -> Seq<u8>
    decreases headers.len(),
{
    if headers.len() == 0 {
        Seq::empty()
    } else {
        header_block(headers.drop_last()) + header_line(headers.last().0, headers.last().1)
    }
}

/// The bytes of a response: the status line, each header on a line of its own,
/// a blank line, and the body as it is.
pub open spec fn response(
    status_line: Seq<char>,
    headers: Seq<(Seq<char>, Seq<char>)>,
    body: Seq<u8>,
) -> Seq<u8> {
    encode_utf8(status_line) + crlf() + header_block(headers) + crlf() + body
}

/// A response that carries `body` as content of the given type, with its exact
/// length announced.
pub open spec fn content_response(content_type: Seq<char>, body: Seq<u8>) -> Seq<u8> {
    response(
        Status::Success.line_text(),
        seq![("Content-Type"@, content_type), ("Content-Length"@, decimal(body.len()))],
        body,
    )
}

/// A response without headers or body.
pub open spec fn bare_response(status: Status) -> Seq<u8> {
    response(status.line_text(), Seq::empty(), Seq::empty())
}

/// The response to a request that asks for text back.
pub open spec fn text_response(body: Seq<char>) -> Seq<u8> {
    content_response("text/plain"@, encode_utf8(body))
}

/// The response to a request for a file: the file's bytes if it could be read,
/// else `404`.
pub open spec fn file_response(content: Option<Seq<u8>>) -> Seq<u8> {
    match content {
        Some(bytes) => content_response("application/octet-stream"@, bytes),
        None => bare_response(Status::NotFound),
    }
}

/// A bare response is the status line and two line terminators.
pub proof fn lemma_bare_response(status: Status)
    ensures
        bare_response(status) == encode_utf8(status.line_text()) + seq![CR, LF, CR, LF],
{
    assert(header_block(Seq::<(Seq<char>, Seq<char>)>::empty()) == Seq::<u8>::empty());
    assert(bare_response(status) =~= encode_utf8(status.line_text()) + seq![CR, LF, CR, LF]);
}

/// Appends `bytes` to `out`.
fn put(out: &mut Vec<u8>, bytes: &[u8])
    ensures
        final(out)@ == old(out)@ + bytes@,
{
    out.extend_from_slice(bytes);
    assert(out@ =~= old(out)@ + bytes@);
}

/// Builds a response: `status_line` and a line terminator, each header as
/// `name: value` and a line terminator, a blank line, then `body` as it is.
/// No header is added: a `Content-Length` is the caller's to give.
pub fn build_response(status_line: &str, headers: &Vec<(String, String)>, body: &[u8]) -> (bytes:
    Vec<u8>)
    ensures
        bytes@ == response(status_line@, headers.deep_view(), body@),
{
    let ghost lines = headers.deep_view();
    let mut bytes: Vec<u8> = Vec::new();
    put(&mut bytes, status_line.as_bytes());
    bytes.push(CR);
    bytes.push(LF);
    let ghost head = bytes@;
    assert(head =~= encode_utf8(status_line@) + crlf());
    assert(bytes@ =~= head + header_block(lines.subrange(0, 0)));
    let mut i: usize = 0;
    while i < headers.len()
        invariant
            i <= headers@.len(),
            lines == headers.deep_view(),
            bytes@ == head + header_block(lines.subrange(0, i as int)),
        decreases headers@.len() - i,
    {
        let ghost before = bytes@;
        let header = &headers[i];
        put(&mut bytes, header.0.as_str().as_bytes());
        bytes.push(COLON);
        bytes.push(SPACE);
        put(&mut bytes, header.1.as_str().as_bytes());
        bytes.push(CR);
        bytes.push(LF);
        i = i + 1;
        proof {
            let upto = lines.subrange(0, i as int);
            assert(upto.drop_last() =~= lines.subrange(0, i - 1));
            assert(upto.last() == (header.0@, header.1@));
            assert(bytes@ =~= before + header_line(header.0@, header.1@));
            assert(bytes@ =~= head + header_block(upto));
        }
    }
    assert(lines.subrange(0, i as int) =~= lines);
    let ghost block = bytes@;
    bytes.push(CR);
    bytes.push(LF);
    put(&mut bytes, body);
    assert(bytes@ =~= block + crlf() + body@);
    bytes
}

/// A response with the given status, without headers or body.
pub fn plain_response(status: Status) -> (bytes: Vec<u8>)
    ensures
        bytes@ == bare_response(status),
{
    let headers: Vec<(String, String)> = Vec::new();
    let body: Vec<u8> = Vec::new();
    assert(headers.deep_view() =~= Seq::empty());
    assert(body@ =~= Seq::empty());
    build_response(status.line(), &headers, body.as_slice())
}

/// A `200` response that carries `body` as content of the given type and
/// announces its length.
pub fn respond_with(content_type: &str, body: &[u8]) -> (bytes: Vec<u8>)
    ensures
        bytes@ == content_response(content_type@, body@),
{
    let mut headers: Vec<(String, String)> = Vec::new();
    headers.push(("Content-Type".to_owned(), content_type.to_owned()));
    headers.push(("Content-Length".to_owned(), decimal_string(body.len())));
    assert(headers.deep_view() =~= seq![
        ("Content-Type"@, content_type@),
        ("Content-Length"@, decimal(body@.len())),
    ]);
    build_response(Status::Success.line(), &headers, body)
}

/// The `200` response that hands `body` back as plain text.
pub fn ok_text_response(body: &str) -> (bytes: Vec<u8>)
    ensures
        bytes@ == text_response(body@),
{
    respond_with("text/plain", body.as_bytes())
}

/// The response to a request for a file, given what reading the file gave:
/// its bytes as a `200` of type `application/octet-stream`, or `404` where it
/// could not be read.
pub fn serve_file(content: Option<Vec<u8>>) -> (bytes: Vec<u8>)
    ensures
        bytes@ == file_response(
            match content {
                Some(read) => Some(read@),
                None => None,
            },
        ),
{
    match content {
        Some(read) => respond_with("application/octet-stream", read.as_slice()),
        None => plain_response(Status::NotFound),
    }
}

} // verus!
