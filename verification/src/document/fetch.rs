//! Fetching a document by URL: which addresses are public, which redirects are
//! followed, and what the downloaded file is called.

use crate::document::names::usable_name;
use crate::document::runtime::{safe_file_name, RuntimeError, RuntimeErrorView};
use crate::http::{is_redirection, is_success, redirection, success};
use crate::text::{
    chars_of, matches_at, opt_text, same_text, split, split_of, starts_with, string_of, texts, trim,
    trim_of,
};
use vstd::prelude::*;
use vstd::slice::slice_subrange;

verus! {

/// How many redirects are followed.
pub const MAX_REDIRECTS: usize = 5;

/// An IP address: the bytes of a V4 one, the segments of a V6 one.
#[derive(Clone, Copy, Debug)]
pub enum IpAddress {
    V4([u8; 4]),
    V6([u16; 8]),
}

/// Private, loopback, link-local, unspecified, broadcast and documentation
/// addresses.
pub open spec fn blocked_v4(o: Seq<u8>) -> bool {
    ||| o[0] == 10
    ||| (o[0] == 172 && 16 <= o[1] <= 31)
    ||| (o[0] == 192 && o[1] == 168)
    ||| o[0] == 127
    ||| (o[0] == 169 && o[1] == 254)
    ||| (o[0] == 0 && o[1] == 0 && o[2] == 0 && o[3] == 0)
    ||| (o[0] == 255 && o[1] == 255 && o[2] == 255 && o[3] == 255)
    ||| (o[0] == 192 && o[1] == 0 && o[2] == 2)
    ||| (o[0] == 198 && o[1] == 51 && o[2] == 100)
    ||| (o[0] == 203 && o[1] == 0 && o[2] == 113)
}

pub open spec fn all_zero(s: Seq<u16>, n: int) -> bool {
    forall|i: int| 0 <= i < n ==> #[trigger] s[i] == 0
}

/// Loopback, unspecified, unique-local and link-local addresses.
pub open spec fn blocked_v6(s: Seq<u16>) -> bool {
    ||| (all_zero(s, 7) && s[7] <= 1)
    ||| 0xfc00 <= s[0] <= 0xfdff
    ||| 0xfe80 <= s[0] <= 0xfebf
}

pub open spec fn is_blocked(ip: IpAddress) -> bool {
    match ip {
        IpAddress::V4(o) => blocked_v4(o@),
        IpAddress::V6(s) => blocked_v6(s@),
    }
}

/// Whether an address belongs to a network that must not be reached.
pub fn blocked_ip(ip: IpAddress) -> (b: bool)
    ensures
        b == is_blocked(ip),
{
    match ip {
        IpAddress::V4(o) => o[0] == 10 || (o[0] == 172 && 16 <= o[1] && o[1] <= 31) || (o[0] == 192
            && o[1] == 168) || o[0] == 127 || (o[0] == 169 && o[1] == 254) || (o[0] == 0 && o[1]
            == 0 && o[2] == 0 && o[3] == 0) || (o[0] == 255 && o[1] == 255 && o[2] == 255 && o[3]
            == 255) || (o[0] == 192 && o[1] == 0 && o[2] == 2) || (o[0] == 198 && o[1] == 51 && o[2]
            == 100) || (o[0] == 203 && o[1] == 0 && o[2] == 113),
        IpAddress::V6(s) => {
            let mut zero = true;
            for i in 0..7
                invariant
                    zero == all_zero(s@, i as int),
            {
                if s[i] != 0 {
                    assert(s@[i as int] != 0);
                    zero = false;
                }
            }
            (zero && s[7] <= 1) || (0xfc00 <= s[0] && s[0] <= 0xfdff) || (0xfe80 <= s[0] && s[0]
                <= 0xfebf)
        },
    }
}

// ---------------------------------------------------------------------------
// URLs
// ---------------------------------------------------------------------------
/// A parsed URL.
#[derive(Debug)]
pub struct UrlParts {
    /// The URL as text.
    pub text: String,
    pub scheme: String,
    pub host: Option<String>,
    /// The port, or the usual one of the scheme.
    pub port: Option<u16>,
    /// The last path segment.
    pub last_segment: Option<String>,
}

/// The mathematical counterpart of [`UrlParts`].
pub struct UrlView {
    pub text: Seq<char>,
    pub scheme: Seq<char>,
    pub host: Option<Seq<char>>,
    pub port: Option<u16>,
    pub last_segment: Option<Seq<char>>,
}

impl View for UrlParts {
    type V = UrlView;

    open spec fn view(&self) -> UrlView {
        UrlView {
            text: self.text@,
            scheme: self.scheme@,
            host: opt_text(self.host),
            port: self.port,
            last_segment: opt_text(self.last_segment),
        }
    }
}

/// What `reqwest::Url` reads in a text: the parts of a URL, or why it is none.
pub uninterp spec fn url_parsed(text: Seq<char>) -> Result<UrlView, Seq<char>>;

/// Where `reqwest::Url` leads from a URL by a relative or absolute reference.
pub uninterp spec fn url_joined(base: Seq<char>, reference: Seq<char>) -> Result<UrlView, Seq<char>>;

pub open spec fn url_result(r: Result<UrlParts, String>) -> Result<UrlView, Seq<char>> {
    match r {
        Ok(url) => Ok(url@),
        Err(e) => Err(e@),
    }
}

/// A URL as `reqwest` holds it.
#[verifier::external_type_specification]
#[verifier::external_body]
pub struct ExUrl(reqwest::Url);

/// Reads the parts out of a `reqwest::Url`.
#[verifier::external_body]
fn url_parts(url: reqwest::Url) -> UrlParts {
    UrlParts {
        text: url.to_string(),
        scheme: url.scheme().to_owned(),
        host: url.host_str().map(str::to_owned),
        port: url.port_or_known_default(),
        last_segment: url.path_segments().and_then(|mut s| s.next_back()).map(str::to_owned),
    }
}

/// Calls `reqwest::Url::parse`.
///
/// Taken on trust: the parts, or the message, depend on the text alone.
#[verifier::external_body]
pub(crate) fn parse_url(text: &str) -> (r: Result<UrlParts, String>)
    ensures
        url_result(r) == url_parsed(text@),
{
    reqwest::Url::parse(text).map(url_parts).map_err(|e| e.to_string())
}

/// Calls `reqwest::Url::join` on a URL given as text.
///
/// Taken on trust: the parts, or the message, depend on the two texts alone.
#[verifier::external_body]
pub(crate) fn join_url(base: &str, reference: &str) -> (r: Result<UrlParts, String>)
    ensures
        url_result(r) == url_joined(base@, reference@),
{
    reqwest::Url::parse(base)
        .and_then(|url| url.join(reference))
        .map(url_parts)
        .map_err(|e| e.to_string())
}

/// Parses the URL of a document.
pub fn start_fetch(url: &str) -> (r: Result<UrlParts, RuntimeError>)
    ensures
        match (r, url_parsed(url@)) {
            (Ok(parts), Ok(view)) => parts@ == view,
            (Err(e), Err(m)) => e@ == RuntimeErrorView::InvalidInput(m),
            _ => false,
        },
{
    match parse_url(url) {
        Ok(parts) => Ok(parts),
        Err(m) => Err(RuntimeError::InvalidInput(m)),
    }
}

/// Whom to ask for the addresses of a URL, or why not to.
pub open spec fn url_target(url: UrlView) -> Result<(Seq<char>, u16), RuntimeErrorView> {
    if url.scheme != "http"@ && url.scheme != "https"@ {
        Err(RuntimeErrorView::AccessDenied("only HTTP(S) URLs are allowed"@))
    } else {
        match url.host {
            Some(host) => Ok(
                (
                    host,
                    match url.port {
                        Some(p) => p,
                        None => 443,
                    },
                ),
            ),
            None => Err(RuntimeErrorView::InvalidInput("URL has no host"@)),
        }
    }
}

/// The host and the port whose addresses must be checked before a request.
pub fn lookup_target(url: &UrlParts) -> (r: Result<(String, u16), RuntimeError>)
    ensures
        match (r, url_target(url@)) {
            (Ok(t), Ok(expected)) => t.0@ == expected.0 && t.1 == expected.1,
            (Err(e), Err(expected)) => e@ == expected,
            _ => false,
        },
{
    if !same_text(url.scheme.as_str(), "http") && !same_text(url.scheme.as_str(), "https") {
        return Err(RuntimeError::AccessDenied("only HTTP(S) URLs are allowed".to_owned()));
    }
    match &url.host {
        Some(host) => {
            let port: u16 = match url.port {
                Some(p) => p,
                None => 443,
            };
            Ok((host.clone(), port))
        },
        None => Err(RuntimeError::InvalidInput("URL has no host".to_owned())),
    }
}

/// Every address is public, and there is one.
pub open spec fn all_public(addresses: Seq<IpAddress>) -> bool {
    addresses.len() > 0 && forall|i: int|
        0 <= i < addresses.len() ==> !is_blocked(#[trigger] addresses[i])
}

/// Allows a request only when every address of the host is public.
pub fn check_addresses(lookup: Result<Vec<IpAddress>, String>) -> (r: Result<(), RuntimeError>)
    ensures
        match lookup {
            Ok(addresses) => if all_public(addresses@) {
                r is Ok
            } else {
                r matches Err(e) && e@ == RuntimeErrorView::AccessDenied(
                    "URL resolves to a blocked network"@,
                )
            },
            Err(m) => r matches Err(e) && e@ == RuntimeErrorView::Http(
                "DNS lookup failed: "@ + m@,
            ),
        },
{
    match lookup {
        Ok(addresses) => {
            let mut public = true;
            for i in 0..addresses.len()
                invariant
                    public == forall|j: int| 0 <= j < i ==> !is_blocked(#[trigger] addresses@[j]),
            {
                if blocked_ip(addresses[i]) {
                    assert(is_blocked(addresses@[i as int]));
                    public = false;
                }
            }
            if public && addresses.len() > 0 {
                Ok(())
            } else {
                Err(RuntimeError::AccessDenied("URL resolves to a blocked network".to_owned()))
            }
        },
        Err(m) => {
            let mut text = "DNS lookup failed: ".to_owned();
            text.push_str(m.as_str());
            Err(RuntimeError::Http(text))
        },
    }
}

// ---------------------------------------------------------------------------
// Replies
// ---------------------------------------------------------------------------
/// The head of a reply.
#[derive(Debug)]
pub struct ReplyHead {
    pub status: u16,
    /// The status with its reason phrase.
    pub status_text: String,
    /// The `Location` header, when it is text.
    pub location: Option<String>,
    pub content_length: Option<u64>,
}

/// What to do after the head of a reply.
#[derive(Debug)]
pub enum FetchStep {
    /// Request this URL.
    Follow(UrlParts),
    /// Read the body.
    Read,
}

/// What the head of a reply means; `None` says to read the body. `hop` counts
/// the redirects that were followed.
pub open spec fn head_outcome(head: ReplyHead, current: Seq<char>, hop: usize, max_bytes: usize) -> Result<
    Option<UrlView>,
    RuntimeErrorView,
> {
    if is_redirection(head.status) {
        match head.location {
            Some(location) => match redirect_outcome(url_joined(current, location@), hop) {
                Ok(next) => Ok(Some(next)),
                Err(e) => Err(e),
            },
            None => Err(RuntimeErrorView::Http("redirect has no valid Location"@)),
        }
    } else if !is_success(head.status) {
        Err(RuntimeErrorView::Http("source returned HTTP "@ + head.status_text@))
    } else if head.content_length matches Some(n) && n > max_bytes {
        Err(RuntimeErrorView::ResourceLimit("remote content is too large"@))
    } else {
        Ok(None)
    }
}

/// Where a redirect leads, once its target was read.
pub open spec fn redirect_outcome(next: Result<UrlView, Seq<char>>, hop: usize) -> Result<
    UrlView,
    RuntimeErrorView,
> {
    match next {
        Ok(url) => if hop >= MAX_REDIRECTS {
            Err(RuntimeErrorView::ResourceLimit("too many redirects"@))
        } else {
            Ok(url)
        },
        Err(m) => Err(RuntimeErrorView::Http(m)),
    }
}

/// Follows a redirect whose target was read, unless there were too many.
pub fn follow_redirect(next: Result<UrlParts, String>, hop: usize) -> (r: Result<
    FetchStep,
    RuntimeError,
>)
    ensures
        match (r, redirect_outcome(url_result(next), hop)) {
            (Ok(FetchStep::Follow(url)), Ok(expected)) => url@ == expected,
            (Err(e), Err(expected)) => e@ == expected,
            _ => false,
        },
{
    match next {
        Ok(url) => {
            if hop >= MAX_REDIRECTS {
                Err(RuntimeError::ResourceLimit("too many redirects".to_owned()))
            } else {
                Ok(FetchStep::Follow(url))
            }
        },
        Err(m) => Err(RuntimeError::Http(m)),
    }
}

/// Decides what the head of a reply means.
pub fn after_head(head: &ReplyHead, current: &UrlParts, hop: usize, max_bytes: usize) -> (r: Result<
    FetchStep,
    RuntimeError,
>)
    ensures
        match (r, head_outcome(*head, current@.text, hop, max_bytes)) {
            (Ok(FetchStep::Follow(url)), Ok(Some(next))) => url@ == next,
            (Ok(FetchStep::Read), Ok(None)) => true,
            (Err(e), Err(expected)) => e@ == expected,
            _ => false,
        },
{
    if redirection(head.status) {
        return match &head.location {
            Some(location) => follow_redirect(
                join_url(current.text.as_str(), location.as_str()),
                hop,
            ),
            None => Err(RuntimeError::Http("redirect has no valid Location".to_owned())),
        };
    }
    if !success(head.status) {
        let mut m = "source returned HTTP ".to_owned();
        m.push_str(head.status_text.as_str());
        return Err(RuntimeError::Http(m));
    }
    if let Some(n) = head.content_length {
        if n > max_bytes as u64 {
            return Err(RuntimeError::ResourceLimit("remote content is too large".to_owned()));
        }
    }
    Ok(FetchStep::Read)
}

// ---------------------------------------------------------------------------
// Names
// ---------------------------------------------------------------------------
pub open spec fn is_quote(c: char) -> bool {
    c == '"' || c == '\''
}

pub open spec fn unquoted_end(s: Seq<char>) -> Seq<char>
    decreases s.len(),
{
    if s.len() > 0 && is_quote(s.last()) { unquoted_end(s.drop_last()) } else { s }
}

pub open spec fn unquoted_start(s: Seq<char>) -> Seq<char>
    decreases s.len(),
{
    if s.len() > 0 && is_quote(s.first()) { unquoted_start(s.drop_first()) } else { s }
}

/// The text without the quotes around it.
pub open spec fn unquoted(s: Seq<char>) -> Seq<char> {
    unquoted_end(unquoted_start(s))
}

/// The file name in one parameter of a `Content-Disposition`.
pub open spec fn filename_param(part: Seq<char>) -> Option<Seq<char>> {
    let t = trim(part);
    if starts_with(t, "filename="@) { Some(unquoted(t.skip("filename="@.len() as int))) } else { None }
}

pub open spec fn first_filename(parts: Seq<Seq<char>>) -> Option<Seq<char>>
    decreases parts.len(),
{
    if parts.len() == 0 {
        None
    } else {
        match filename_param(parts.first()) {
            Some(name) => Some(name),
            None => first_filename(parts.drop_first()),
        }
    }
}

/// The file name that a `Content-Disposition` gives.
pub open spec fn disposition_name(value: Seq<char>) -> Option<Seq<char>> {
    first_filename(split(value, ';'))
}

fn trim_quotes<'a>(s: &'a [char]) -> (r: &'a [char])
    ensures
        r@ == unquoted(s@),
{
    let mut i: usize = 0;
    assert(s@.skip(0) =~= s@);
    while i < s.len() && (s[i] == '"' || s[i] == '\'')
        invariant
            i <= s.len(),
            unquoted_start(s@) == unquoted_start(s@.skip(i as int)),
        decreases s.len() - i,
    {
        assert(s@.skip(i as int).drop_first() =~= s@.skip(i + 1));
        i = i + 1;
    }
    let t = slice_subrange(s, i, s.len());
    assert(t@ =~= s@.skip(i as int));
    let mut j: usize = t.len();
    assert(t@.take(j as int) =~= t@);
    while j > 0 && (t[j - 1] == '"' || t[j - 1] == '\'')
        invariant
            j <= t.len(),
            unquoted_end(t@) == unquoted_end(t@.take(j as int)),
        decreases j,
    {
        assert(t@.take(j as int).drop_last() =~= t@.take(j - 1));
        j = j - 1;
    }
    let r = slice_subrange(t, 0, j);
    assert(r@ =~= t@.take(j as int));
    r
}

fn read_filename_param(part: &str) -> (r: Option<String>)
    ensures
        opt_text(r) == filename_param(part@),
{
    let chars = chars_of(part);
    let t = trim_of(chars.as_slice());
    let prefix = chars_of("filename=");
    if matches_at(t, prefix.as_slice(), 0) {
        let tail = slice_subrange(t, prefix.len(), t.len());
        assert(tail@ =~= trim(part@).skip("filename="@.len() as int));
        Some(string_of(trim_quotes(tail)))
    } else {
        None
    }
}

/// Reads the file name out of a `Content-Disposition` header.
pub fn name_from_headers(value: &str) -> (r: Option<String>)
    ensures
        opt_text(r) == disposition_name(value@),
{
    let parts = split_of(chars_of(value).as_slice(), ';');
    let ghost all = split(value@, ';');
    assert(all.skip(0) =~= all);
    for i in 0..parts.len()
        invariant
            all == split(value@, ';'),
            texts(parts@) == all,
            first_filename(all) == first_filename(all.skip(i as int)),
    {
        assert(all[i as int] == parts@[i as int]@);
        assert(all.skip(i as int).first() == all[i as int]);
        assert(all.skip(i as int).drop_first() =~= all.skip(i + 1));
        if let Some(name) = read_filename_param(parts[i].as_str()) {
            return Some(name);
        }
    }
    None
}

/// The name of a downloaded file: from its header, else from its URL, else a
/// fixed one.
pub open spec fn download_name(disposition: Option<Seq<char>>, last_segment: Option<Seq<char>>) -> Seq<
    char,
> {
    let named = match disposition {
        Some(value) => match disposition_name(value) {
            Some(name) => Some(name),
            None => last_segment,
        },
        None => last_segment,
    };
    match named {
        Some(name) => if name.len() == 0 { "download.bin"@ } else { name },
        None => "download.bin"@,
    }
}

/// Accepts a downloaded body and names it.
pub fn after_body(
    size: usize,
    max_bytes: usize,
    disposition: &Option<String>,
    current: &UrlParts,
) -> (r: Result<String, RuntimeError>)
    ensures
        ({
            let name = download_name(opt_text(*disposition), current@.last_segment);
            match r {
                Ok(s) => size <= max_bytes && usable_name(name) == Some(s@),
                Err(e) => if size > max_bytes {
                    e@ == RuntimeErrorView::ResourceLimit("remote content is too large"@)
                } else {
                    usable_name(name) is None && e@ == RuntimeErrorView::InvalidInput(
                        "invalid file name"@,
                    )
                },
            }
        }),
{
    if size > max_bytes {
        return Err(RuntimeError::ResourceLimit("remote content is too large".to_owned()));
    }
    let mut named: Option<String> = None;
    if let Some(value) = disposition {
        named = name_from_headers(value.as_str());
    }
    if named.is_none() {
        named = crate::text::copy_opt(&current.last_segment);
    }
    let name = match named {
        Some(n) => {
            if chars_of(n.as_str()).len() == 0 { "download.bin".to_owned() } else { n }
        },
        None => "download.bin".to_owned(),
    };
    safe_file_name(name.as_str())
}

} // verus!
