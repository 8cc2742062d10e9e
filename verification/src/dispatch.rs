//! The route dispatcher: which of the server's fixed behaviours a request
//! calls for. Where the answer lies in the file system, the dispatcher names
//! the file and leaves the reading or writing to its caller.

use vstd::prelude::*;
use crate::decimal::{number, parse_decimal};
use crate::request::{parse_request, parsed, HttpRequest, ParseError, RequestModel};
use crate::response::{bare_response, ok_text_response, plain_response, text_response, Status};
use crate::text::{chars_of, find_back, same_text, seek_back, slice_of, starts_with, CharClass};

verus! {

/// How many body bytes a `POST` is taken to carry where no `Content-Length`
/// header says so in a form that can be read.
pub const DEFAULT_BODY_LENGTH: usize = 10;

/// What the server is to do for a request.
#[derive(Debug)]
pub enum Action {
    /// Send these bytes.
    Respond(Vec<u8>),
    /// Read the file of this name in the base directory, and send what
    /// `serve_file` makes of the outcome.
    ReadFile { name: String },
    /// Read `length` bytes of body, store them as the file of this name in the
    /// base directory, creating or truncating it, and send `201`.
    WriteFile { name: String, length: usize },
}

/// An `Action` as mathematical values.
pub enum ActionModel {
    Respond(Seq<u8>),
    ReadFile { name: Seq<char> },
    WriteFile { name: Seq<char>, length: nat },
}

impl View for Action {
    type V = ActionModel;

    open spec fn view(&self) -> ActionModel {
        match self {
            Action::Respond(bytes) => ActionModel::Respond(bytes@),
            Action::ReadFile { name } => ActionModel::ReadFile { name: name@ },
            Action::WriteFile { name, length } => ActionModel::WriteFile {
                name: name@,
                length: *length as nat,
            },
        }
    }
}

/// The text that an echo request asks back: the path without its first six
/// characters, which are `/echo` and a separator.
pub open spec fn echo_text(path: Seq<char>) -> Seq<char> {
    if path.len() >= 6 {
        path.skip(6)
    } else {
        Seq::empty()
    }
}

/// The file that a path names: its last segment, that is all that follows its
/// last `/`. Directories in the path are dropped.
pub open spec fn file_name(path: Seq<char>) -> Seq<char> {
    path.skip(seek_back(path, path.len() as int, CharClass::Exactly('/'), true))
}

/// The number of body bytes that the headers announce: the value of
/// `Content-Length` where it is a number that fits a `usize`, else the default.
pub open spec fn body_length(headers: Map<Seq<char>, Seq<char>>) -> nat {
    if headers.contains_key("Content-Length"@) {
        match number(headers["Content-Length"@]) {
            Some(n) if n <= usize::MAX => n,
            _ => DEFAULT_BODY_LENGTH as nat,
        }
    } else {
        DEFAULT_BODY_LENGTH as nat
    }
}

/// The routing table. The first rule that matches decides.
pub open spec fn dispatched(request: RequestModel) -> ActionModel {
    if request.path == "/"@ {
        ActionModel::Respond(bare_response(Status::Success))
    } else if "/user-agent"@.is_prefix_of(request.path) && request.headers.contains_key(
        "User-Agent"@,
    ) {
        ActionModel::Respond(text_response(request.headers["User-Agent"@]))
    } else if "/echo"@.is_prefix_of(request.path) {
        ActionModel::Respond(text_response(echo_text(request.path)))
    } else if "/files/"@.is_prefix_of(request.path) && request.method == "GET"@ {
        ActionModel::ReadFile { name: file_name(request.path) }
    } else if "/files/"@.is_prefix_of(request.path) && request.method == "POST"@ {
        ActionModel::WriteFile {
            name: file_name(request.path),
            length: body_length(request.headers),
        }
    } else {
        ActionModel::Respond(bare_response(Status::NotFound))
    }
}

/// The file name is the path's tail after its last `/`: it holds no `/`, and the
/// path is some directory part, ending in `/` unless it is empty, followed by
/// the name.
pub proof fn lemma_file_name(path: Seq<char>)
    ensures
        !file_name(path).contains('/'),
        file_name(path).len() <= path.len(),
        path == path.take(path.len() - file_name(path).len()) + file_name(path),
        file_name(path).len() < path.len() ==> path[path.len() - file_name(path).len() - 1] == '/',
{
    let cut = seek_back(path, path.len() as int, CharClass::Exactly('/'), true);
    crate::text::lemma_seek_back(path, path.len() as int, CharClass::Exactly('/'), true);
    let name = file_name(path);
    if name.contains('/') {
        let j = choose|j: int| 0 <= j < name.len() && name[j] == '/';
        assert(CharClass::Exactly('/').holds(path[cut + j]));
    }
    assert(path =~= path.take(path.len() - name.len()) + name);
}

/// The last segment of a path.
pub fn last_segment(path: &str) -> (name: String)
    ensures
        name@ == file_name(path@),
{
    let chars = chars_of(path);
    let cut = find_back(&chars, chars.len(), CharClass::Exactly('/'), true);
    slice_of(path, cut, chars.len())
}

/// The number of body bytes to read for a request that stores a file.
pub fn content_length(request: &HttpRequest) -> (length: usize)
    ensures
        length == body_length(request@.headers),
{
    match request.header("Content-Length") {
        Some(value) => match parse_decimal(value.as_str()) {
            Some(n) => n,
            None => DEFAULT_BODY_LENGTH,
        },
        None => DEFAULT_BODY_LENGTH,
    }
}

/// Decides what a request calls for, by the routing table:
///
/// 1. the path `/`: `200` without body;
/// 2. a path that starts with `/user-agent`, if there is a `User-Agent`
///    header: that header's value as text;
/// 3. a path that starts with `/echo`: the rest of the path after six
///    characters as text;
/// 4. a path that starts with `/files/`, method `GET`: the named file is to be
///    read;
/// 5. a path that starts with `/files/`, method `POST`: the body is to be
///    stored as the named file;
/// 6. anything else: `404`.
pub fn dispatch(request: &HttpRequest) -> (action: Action)
    ensures
        action@ == dispatched(request@),
{
    let path = request.path.as_str();
    let chars = chars_of(path);
    if same_text(path, "/") {
        return Action::Respond(plain_response(Status::Success));
    }
    if starts_with(&chars, &chars_of("/user-agent")) {
        match request.header("User-Agent") {
            Some(agent) => {
                return Action::Respond(ok_text_response(agent.as_str()));
            },
            None => {},
        }
    }
    if starts_with(&chars, &chars_of("/echo")) {
        let text = if chars.len() >= 6 {
            slice_of(path, 6, chars.len())
        } else {
            String::new()
        };
        return Action::Respond(ok_text_response(text.as_str()));
    }
    if starts_with(&chars, &chars_of("/files/")) {
        if same_text(request.method.as_str(), "GET") {
            return Action::ReadFile { name: last_segment(path) };
        }
        if same_text(request.method.as_str(), "POST") {
            return Action::WriteFile {
                name: last_segment(path),
                length: content_length(request),
            };
        }
    }
    Action::Respond(plain_response(Status::NotFound))
}

/// What serving a connection begins with, as a function of its header section:
/// the action that the request calls for, or the reason why the lines are no
/// request.
pub open spec fn handled(lines: Seq<Seq<char>>) -> Result<ActionModel, ParseError> {
    match parsed(lines) {
        Ok(request) => Ok(dispatched(request)),
        Err(error) => Err(error),
    }
}

/// Decides what to do for a connection from the lines of its header section:
/// parses them and dispatches the request. Lines that are no request get no
/// response at all: the error says why, and the connection is to be closed.
pub fn handle_connection(http_request_lines: &Vec<String>) -> (outcome: Result<Action, ParseError>)
    ensures
        match (handled(http_request_lines.deep_view()), outcome) {
            (Ok(expected), Ok(action)) => action@ == expected,
            (Err(expected), Err(error)) => error == expected,
            _ => false,
        },
{
    match parse_request(http_request_lines) {
        Ok(request) => Ok(dispatch(&request)),
        Err(error) => Err(error),
    }
}

} // verus!
