//! The request parser: from the raw lines of a header section to a structured
//! request.

use vstd::prelude::*;
use vstd::hash_map::StringHashMap;
use crate::text::{
    chars_of, find, has_word, next_word, seek, slice_of, trim, trimmed, word, word_bounds,
    CharClass,
};

verus! {

/// Why a header section is not a request.
#[derive(Clone, Copy, Debug, PartialEq, Eq, Structural)]
pub enum ParseError {
    /// There is no line at all.
    MissingRequestLine,
    /// The first line holds fewer than two words.
    MalformedRequestLine,
    /// A line after the first holds no `:`.
    MalformedHeader,
}

/// A parsed request: method, raw path, and the headers by name. Header names are
/// kept as received and looked up case-sensitively.
pub struct HttpRequest {
    pub path: String,
    pub headers: StringHashMap<String>,
    pub method: String,
}

/// What a request says, as mathematical values.
pub struct RequestModel {
    pub method: Seq<char>,
    pub path: Seq<char>,
    pub headers: Map<Seq<char>, Seq<char>>,
}

/// The text of each stored header value.
pub open spec fn header_texts(stored: Map<Seq<char>, String>) -> Map<Seq<char>, Seq<char>> {
    stored.map_values(|value: String| value@)
}

impl View for HttpRequest {
    type V = RequestModel;

    open spec fn view(&self) -> RequestModel {
        RequestModel {
            method: self.method@,
            path: self.path@,
            headers: header_texts(self.headers@),
        }
    }
}

/// The method, path and protocol version that a request line names: its first
/// three words. The version is empty where the line has only two words.
pub open spec fn request_line(line: Seq<char>) -> Result<
    (Seq<char>, Seq<char>, Seq<char>),
    ParseError,
> {
    if has_word(line, 1) {
        Ok((word(line, 0), word(line, 1), word(line, 2)))
    } else {
        Err(ParseError::MalformedRequestLine)
    }
}

/// Index of the first `:` of a header line, or the line's length if it has none.
pub open spec fn colon_index(line: Seq<char>) -> int {
    seek(line, 0, CharClass::Exactly(':'), true)
}

/// Whether a line has the shape of a header: it holds a `:`.
pub open spec fn is_header(line: Seq<char>) -> bool {
    colon_index(line) < line.len()
}

/// The name of a header line: all that stands before its first `:`.
pub open spec fn header_name(line: Seq<char>) -> Seq<char> {
    line.subrange(0, colon_index(line))
}

/// The value of a header line: all that stands after its first `:`, without
/// leading and trailing whitespace.
pub open spec fn header_value(line: Seq<char>) -> Seq<char> {
    trimmed(line.subrange(colon_index(line) + 1, line.len() as int))
}

/// The headers that a run of header lines defines. A later line replaces an
/// earlier one of the same name.
pub open spec fn header_map(lines: Seq<Seq<char>>) -> Map<Seq<char>, Seq<char>>
    decreases lines.len(),
{
    if lines.len() == 0 {
        Map::empty()
    } else {
        header_map(lines.drop_last()).insert(header_name(lines.last()), header_value(lines.last()))
    }
}

/// The request that a header section denotes, or the reason why it denotes
/// none. The first line is the request line, every further line a header.
pub open spec fn parsed(lines: Seq<Seq<char>>) -> Result<RequestModel, ParseError> {
    if lines.len() == 0 {
        Err(ParseError::MissingRequestLine)
    } else if !has_word(lines[0], 1) {
        Err(ParseError::MalformedRequestLine)
    } else if exists|i: int| 1 <= i < lines.len() && !is_header(#[trigger] lines[i]) {
        Err(ParseError::MalformedHeader)
    } else {
        Ok(
            RequestModel {
                method: word(lines[0], 0),
                path: word(lines[0], 1),
                headers: header_map(lines.skip(1)),
            },
        )
    }
}

/// Whether `outcome` is what parsing `lines` must return.
pub open spec fn parses_to(lines: Seq<Seq<char>>, outcome: Result<HttpRequest, ParseError>) -> bool {
    match (parsed(lines), outcome) {
        (Ok(model), Ok(request)) => request@ == model,
        (Err(expected), Err(error)) => error == expected,
        _ => false,
    }
}

/// A line has the shape of a header exactly if `:` occurs in it.
pub proof fn lemma_is_header(line: Seq<char>)
    ensures
        is_header(line) <==> line.contains(':'),
        is_header(line) ==> line[colon_index(line)] == ':' && !header_name(line).contains(':'),
{
    crate::text::lemma_seek(line, 0, CharClass::Exactly(':'), true);
    let at = colon_index(line);
    if line.contains(':') {
        let i = choose|i: int| 0 <= i < line.len() && line[i] == ':';
        assert(CharClass::Exactly(':').holds(line[i]));
    }
    if is_header(line) {
        assert(line[at] == ':');
        if header_name(line).contains(':') {
            let j = choose|j: int| 0 <= j < header_name(line).len() && header_name(line)[j] == ':';
            assert(CharClass::Exactly(':').holds(line[j]));
        }
    }
}

/// A name is among the headers exactly if some line bears it.
pub proof fn lemma_header_names(lines: Seq<Seq<char>>, name: Seq<char>)
    ensures
        header_map(lines).contains_key(name) <==> exists|i: int|
            0 <= i < lines.len() && header_name(#[trigger] lines[i]) == name,
    decreases lines.len(),
{
    if lines.len() > 0 {
        let front = lines.drop_last();
        lemma_header_names(front, name);
        if header_map(lines).contains_key(name) {
            if header_name(lines.last()) == name {
                assert(header_name(lines[lines.len() - 1]) == name);
            } else {
                let i = choose|i: int| 0 <= i < front.len() && header_name(#[trigger] front[i]) == name;
                assert(header_name(lines[i]) == name);
            }
        }
        if exists|i: int| 0 <= i < lines.len() && header_name(#[trigger] lines[i]) == name {
            let i = choose|i: int| 0 <= i < lines.len() && header_name(#[trigger] lines[i]) == name;
            if i < lines.len() - 1 {
                assert(header_name(front[i]) == name);
            }
        }
    }
}

/// Last wins: a header line that no later line of the same name follows gives
/// its name its value.
pub proof fn lemma_header_last_wins(lines: Seq<Seq<char>>, i: int)
    requires
        0 <= i < lines.len(),
        forall|j: int| i < j < lines.len() ==> header_name(#[trigger] lines[j]) != header_name(lines[i]),
    ensures
        header_map(lines).contains_key(header_name(lines[i])),
        header_map(lines)[header_name(lines[i])] == header_value(lines[i]),
    decreases lines.len(),
{
    if i < lines.len() - 1 {
        let front = lines.drop_last();
        assert(front[i] == lines[i]);
        assert forall|j: int| i < j < front.len() implies header_name(#[trigger] front[j])
            != header_name(front[i]) by {
            assert(front[j] == lines[j]);
        }
        lemma_header_last_wins(front, i);
        assert(header_name(lines[lines.len() - 1]) != header_name(lines[i]));
    }
}

/// A header line without `:` fails the whole section, whatever else it holds,
/// provided the request line is sound.
pub proof fn lemma_header_without_colon_fails(lines: Seq<Seq<char>>, i: int)
    requires
        lines.len() > 0,
        has_word(lines[0], 1),
        1 <= i < lines.len(),
        !lines[i].contains(':'),
    ensures
        parsed(lines) == Err::<RequestModel, ParseError>(ParseError::MalformedHeader),
{
    lemma_is_header(lines[i]);
}

/// Parsing is a function of the text alone: two outcomes of parsing the same
/// lines are both failures for the same reason, or both requests that say the
/// same.
pub proof fn lemma_parse_is_deterministic(
    lines: Seq<Seq<char>>,
    first: Result<HttpRequest, ParseError>,
    second: Result<HttpRequest, ParseError>,
)
    requires
        parses_to(lines, first),
        parses_to(lines, second),
    ensures
        match (first, second) {
            (Ok(a), Ok(b)) => a@ == b@,
            (Err(a), Err(b)) => a == b,
            _ => false,
        },
{
}

impl HttpRequest {
    /// Looks a header up by its exact name.
    pub fn header(&self, name: &str) -> (found: Option<&String>)
        ensures
            match found {
                Some(value) => self@.headers.contains_key(name@) && self@.headers[name@] == value@,
                None => !self@.headers.contains_key(name@),
            },
    {
        self.headers.get(name)
    }

    /// The number of distinct header names.
    pub fn header_count(&self) -> (count: usize)
        ensures
            count == self@.headers.dom().len(),
    {
        let count = self.headers.len();
        proof {
            broadcast use vstd::hash_map::group_hash_map_axioms;
            assert(self@.headers.dom() =~= self.headers@.dom());
        }
        count
    }
}

/// Splits a request line into method, path and protocol version. The line must
/// hold at least two words separated by ASCII whitespace; a third is returned
/// as the version, and anything after it is ignored.
pub fn parse_first_line(first_line: &String) -> (parts: Result<(String, String, String), ParseError>)
    ensures
        match (request_line(first_line@), parts) {
            (Ok(expected), Ok(got)) => got.0@ == expected.0 && got.1@ == expected.1 && got.2@
                == expected.2,
            (Err(expected), Err(error)) => error == expected,
            _ => false,
        },
{
    let line = first_line.as_str();
    let chars = chars_of(line);
    let method = next_word(&chars, 0);
    let path = next_word(&chars, method.1);
    let version = next_word(&chars, path.1);
    proof {
        reveal_with_fuel(word_bounds, 3);
    }
    if path.0 < chars.len() {
        Ok(
            (
                slice_of(line, method.0, method.1),
                slice_of(line, path.0, path.1),
                slice_of(line, version.0, version.1),
            ),
        )
    } else {
        Err(ParseError::MalformedRequestLine)
    }
}

/// Splits a header line at its first `:` into name and trimmed value, or
/// returns `None` for a line without `:`.
pub fn parse_header(line: &String) -> (header: Option<(String, String)>)
    ensures
        match header {
            Some(pair) => is_header(line@) && pair.0@ == header_name(line@) && pair.1@
                == header_value(line@),
            None => !is_header(line@),
        },
{
    let text = line.as_str();
    let chars = chars_of(text);
    let colon = find(&chars, 0, CharClass::Exactly(':'), true);
    if colon < chars.len() {
        let name = slice_of(text, 0, colon);
        let rest = slice_of(text, colon + 1, chars.len());
        let value = trim(rest.as_str());
        Some((name, value))
    } else {
        None
    }
}

/// Parses a header section: the request line, then one header per line. The
/// lines are those before the blank line that ends the section, without their
/// line terminators.
pub fn parse_request(http_request_lines: &Vec<String>) -> (outcome: Result<HttpRequest, ParseError>)
    ensures
        parses_to(http_request_lines.deep_view(), outcome),
{
    let ghost lines = http_request_lines.deep_view();
    if http_request_lines.len() == 0 {
        return Err(ParseError::MissingRequestLine);
    }
    assert(lines[0] == http_request_lines[0]@);
    let (method, path) = match parse_first_line(&http_request_lines[0]) {
        Ok((method, path, _)) => (method, path),
        Err(error) => {
            return Err(error);
        },
    };
    let mut headers: StringHashMap<String> = StringHashMap::new();
    assert(header_texts(headers@) =~= header_map(lines.subrange(1, 1)));
    let mut i: usize = 1;
    while i < http_request_lines.len()
        invariant
            1 <= i <= http_request_lines.len(),
            lines == http_request_lines.deep_view(),
            has_word(lines[0], 1),
            forall|j: int| 1 <= j < i ==> is_header(#[trigger] lines[j]),
            header_texts(headers@) == header_map(lines.subrange(1, i as int)),
        decreases http_request_lines.len() - i,
    {
        assert(lines[i as int] == http_request_lines[i as int]@);
        match parse_header(&http_request_lines[i]) {
            Some((name, value)) => {
                let ghost before = headers@;
                headers.insert(name, value);
                proof {
                    let upto = lines.subrange(1, i as int + 1);
                    assert(upto.drop_last() =~= lines.subrange(1, i as int));
                    assert(upto.last() == lines[i as int]);
                    assert(header_texts(headers@) =~= header_texts(before).insert(
                        name@,
                        value@,
                    ));
                }
            },
            None => {
                assert(!is_header(lines[i as int]));
                return Err(ParseError::MalformedHeader);
            },
        }
        i = i + 1;
    }
    assert(lines.subrange(1, i as int) =~= lines.skip(1));
    Ok(HttpRequest { path, headers, method })
}

} // verus!
