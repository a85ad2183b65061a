//! What an HTTP exchange comes down to.

use crate::json::{json_parsed, parse_json, parsed_view, Json, JsonView};
use crate::text::{decode_lossy, decode_utf8_text, lossy_text};
use vstd::prelude::*;
use vstd::utf8::{decode_utf8, valid_utf8};

verus! {

/// What was read of the body of a reply.
#[derive(Debug)]
pub enum HttpBody {
    /// The body as it came.
    Bytes(Vec<u8>),
    /// The body, decoded in the character set of the reply.
    Text(String),
    /// Why reading the body failed.
    Unreadable(String),
}

/// A complete reply.
#[derive(Debug)]
pub struct HttpReply {
    pub status: u16,
    /// The status with its reason phrase.
    pub status_text: String,
    pub body: HttpBody,
}

/// A reply, or why there is none.
#[derive(Debug)]
pub enum Exchange {
    Reply(HttpReply),
    Broken(String),
}

pub open spec fn is_success(status: u16) -> bool {
    200 <= status <= 299
}

pub open spec fn is_redirection(status: u16) -> bool {
    300 <= status <= 399
}

pub open spec fn is_server_error(status: u16) -> bool {
    500 <= status <= 599
}

pub fn success(status: u16) -> (b: bool)
    ensures
        b == is_success(status),
{
    200 <= status && status <= 299
}

pub fn redirection(status: u16) -> (b: bool)
    ensures
        b == is_redirection(status),
{
    300 <= status && status <= 399
}

pub fn server_error(status: u16) -> (b: bool)
    ensures
        b == is_server_error(status),
{
    500 <= status && status <= 599
}

/// The value that a text holds. Whatever is wrong with it, the message is the same.
pub open spec fn text_json(text: Seq<char>) -> Result<JsonView, Seq<char>> {
    match json_parsed(text) {
        Ok(value) => Ok(value),
        Err(_) => Err("error decoding response body"@),
    }
}

/// The value that a body holds, or why there is none.
pub open spec fn body_json(body: HttpBody) -> Result<JsonView, Seq<char>> {
    match body {
        HttpBody::Bytes(bytes) => if valid_utf8(bytes@) {
            text_json(decode_utf8(bytes@))
        } else {
            Err("error decoding response body"@)
        },
        HttpBody::Text(text) => text_json(text@),
        HttpBody::Unreadable(message) => Err(message@),
    }
}

/// The body as text; empty when it could not be read.
pub open spec fn body_text(body: HttpBody) -> Seq<char> {
    match body {
        HttpBody::Bytes(bytes) => lossy_text(bytes@),
        HttpBody::Text(text) => text@,
        HttpBody::Unreadable(_) => seq![],
    }
}

fn read_json(text: &str) -> (r: Result<Json, String>)
    ensures
        parsed_view(r) == text_json(text@),
{
    match parse_json(text) {
        Ok(value) => Ok(value),
        Err(_) => Err("error decoding response body".to_owned()),
    }
}

impl HttpBody {
    /// Reads the body as JSON.
    pub fn json(&self) -> (r: Result<Json, String>)
        ensures
            parsed_view(r) == body_json(*self),
    {
        match self {
            HttpBody::Bytes(bytes) => match decode_utf8_text(bytes.as_slice()) {
                Some(text) => read_json(text.as_str()),
                None => Err("error decoding response body".to_owned()),
            },
            HttpBody::Text(text) => read_json(text.as_str()),
            HttpBody::Unreadable(message) => Err(message.clone()),
        }
    }

    /// Reads the body as text.
    pub fn text(&self) -> (r: String)
        ensures
            r@ == body_text(*self),
    {
        match self {
            HttpBody::Bytes(bytes) => decode_lossy(bytes.as_slice()),
            HttpBody::Text(text) => text.clone(),
            HttpBody::Unreadable(_) => String::new(),
        }
    }
}

// ---------------------------------------------------------------------------
// Headers
// ---------------------------------------------------------------------------
/// The characters that the name of a header is made of.
pub open spec fn is_token_char(c: char) -> bool {
    ||| '0' <= c <= '9'
    ||| 'a' <= c <= 'z'
    ||| 'A' <= c <= 'Z'
    ||| c == '!'
    ||| '#' <= c <= '\''
    ||| c == '*'
    ||| c == '+'
    ||| c == '-'
    ||| c == '.'
    ||| c == '^'
    ||| c == '_'
    ||| c == '`'
    ||| c == '|'
    ||| c == '~'
}

pub open spec fn is_header_name(name: Seq<char>) -> bool {
    0 < name.len() <= 0xFFFF && forall|i: int| 0 <= i < name.len() ==> is_token_char(#[trigger] name[i])
}

/// No control characters, but tabs.
pub open spec fn is_header_value(value: Seq<char>) -> bool {
    forall|i: int|
        0 <= i < value.len() ==> (#[trigger] value[i] == '\t' || (value[i] >= ' ' && value[i]
            != '\u{7F}'))
}

/// Calls `reqwest::header::HeaderName::from_bytes`.
///
/// Taken on trust: it accepts exactly up to 65,535 token characters, and its error
/// always prints the same.
#[verifier::external_body]
pub(crate) fn header_name_fault(name: &str) -> (r: Option<String>)
    ensures
        match r {
            Some(message) => !is_header_name(name@) && message@ == "invalid HTTP header name"@,
            None => is_header_name(name@),
        },
{
    reqwest::header::HeaderName::from_bytes(name.as_bytes()).err().map(|error| error.to_string())
}

/// Calls `reqwest::header::HeaderValue::from_str`.
///
/// Taken on trust: it refuses exactly control characters other than a tab, and its
/// error always prints the same.
#[verifier::external_body]
pub(crate) fn header_value_fault(value: &str) -> (r: Option<String>)
    ensures
        match r {
            Some(message) => !is_header_value(value@) && message@
                == "failed to parse header value"@,
            None => is_header_value(value@),
        },
{
    reqwest::header::HeaderValue::from_str(value).err().map(|error| error.to_string())
}

} // verus!
