//! Replies of the development server: which answer a raw request gets, and
//! the status line and headers written before a body.
use vstd::prelude::*;

use crate::serve::{before_char, candidate_path_of, candidate_public_path, header_value, header_value_of, mime_of, mime_type};
use crate::text::{
    chars_of, copy_chars, eq_str, find_char_vec, lemma_find_from_bounds, lines, lines_vec, push_char,
    push_chars, starts_with, starts_with_str, string_of, subvec, vec_eq, views, ws_words,
    ws_words_vec,
};
use crate::url::{decimal, digit_char};

verus! {

broadcast use vstd::string::group_string_axioms;

/// The script that polls the site revision and reloads the page when it
/// changes.
pub const LIVE_JS: &'static str = "(() => {
  const url = '/__typage/revision';
  let current = null;
  async function tick() {
    try {
      const res = await fetch(url, { cache: 'no-store' });
      if (!res.ok) return;
      const next = (await res.text()).trim();
      if (current === null) current = next;
      else if (next !== current) location.reload();
    } catch (_) {}
  }
  setInterval(tick, 1200);
  tick();
})();
";

/// The path that answers with the current site revision.
pub const REVISION_PATH: &'static str = "/__typage/revision";

/// The path that serves the live-reload script.
pub const LIVE_JS_PATH: &'static str = "/__typage/live.js";

/// The content type of plain-text answers.
pub const MIME_TEXT: &'static str = "text/plain; charset=utf-8";

/// The security headers sent with every answer, one per line.
pub const SECURITY_HEADERS: &'static str = "X-Content-Type-Options: nosniff\r\nX-Frame-Options: DENY\r\nReferrer-Policy: strict-origin-when-cross-origin\r\nCross-Origin-Resource-Policy: same-origin\r\nPermissions-Policy: camera=(), microphone=(), geolocation=(), payment=()\r\n";

// ---------------------------------------------------------------------------
// Numbers in headers
// ---------------------------------------------------------------------------

/// The decimal text of `n`.
pub fn decimal_chars(n: u64) -> (r: Vec<char>)
    ensures
        r@ == decimal(n as nat),
    decreases n,
{
    if n < 10 {
        let mut r: Vec<char> = Vec::new();
        r.push(crate::url::digit((n % 10) as usize));
        r
    } else {
        let mut r = decimal_chars(n / 10);
        r.push(crate::url::digit((n % 10) as usize));
        r
    }
}

/// The decimal text of `n`, as a string.
pub fn decimal_string(n: u64) -> (r: String)
    ensures
        r@ == decimal(n as nat),
{
    string_of(&decimal_chars(n))
}

/// A lowercase hexadecimal digit.
pub open spec fn hex_digit_char(d: nat) -> char {
    if d < 10 {
        digit_char(d)
    } else {
        ((d - 10 + 97) as u32) as char
    }
}

/// The lowercase hexadecimal digits of `n`, as `{:x}` writes them.
pub open spec fn hex(n: nat) -> Seq<char>
    decreases n,
{
    if n < 16 {
        seq![hex_digit_char(n)]
    } else {
        hex(n / 16).push(hex_digit_char(n % 16))
    }
}

pub(crate) fn hex_digit(d: u64) -> (c: char)
    requires
        d < 16,
    ensures
        c == hex_digit_char(d as nat),
{
    if d < 10 {
        let b: u8 = (d as u8) + 48;
        b as char
    } else {
        let b: u8 = (d as u8) - 10 + 97;
        b as char
    }
}

/// The lowercase hexadecimal text of `n`.
pub fn hex_chars(n: u64) -> (r: Vec<char>)
    ensures
        r@ == hex(n as nat),
    decreases n,
{
    if n < 16 {
        let mut r: Vec<char> = Vec::new();
        r.push(hex_digit(n));
        r
    } else {
        let mut r = hex_chars(n / 16);
        r.push(hex_digit(n % 16));
        r
    }
}

/// The weak entity tag of a file with `len` bytes last modified
/// `modified` seconds after the Unix epoch: `W/"<len>-<modified>"` in
/// hexadecimal.
pub open spec fn file_etag_of(len: nat, modified: nat) -> Seq<char> {
    "W/\""@ + hex(len) + seq!['-'] + hex(modified) + seq!['"']
}

/// The weak entity tag of a file from its length and modification time.
pub fn file_etag(len: u64, modified: u64) -> (r: String)
    ensures
        r@ == file_etag_of(len as nat, modified as nat),
{
    let mut s = String::from_str("W/\"");
    push_chars(&mut s, &hex_chars(len));
    push_char(&mut s, '-');
    push_chars(&mut s, &hex_chars(modified));
    push_char(&mut s, '"');
    s
}

// ---------------------------------------------------------------------------
// Response heads
// ---------------------------------------------------------------------------

/// The status line of an answer.
pub open spec fn status_line_of(code: nat, reason: Seq<char>) -> Seq<char> {
    "HTTP/1.1 "@ + decimal(code) + seq![' '] + reason + "\r\n"@
}

/// The `ETag` header line, when there is a tag.
pub open spec fn etag_line_of(etag: Option<Seq<char>>) -> Seq<char> {
    match etag {
        Some(e) => "ETag: "@ + e + "\r\n"@,
        None => Seq::<char>::empty(),
    }
}

/// What ends every head: the security headers, `Connection: close` and
/// the blank line.
pub open spec fn closing_of() -> Seq<char> {
    SECURITY_HEADERS@ + "Connection: close\r\n\r\n"@
}

/// The head of an answer with a body of `len` bytes.
pub open spec fn response_head_of(
    code: nat,
    reason: Seq<char>,
    content_type: Seq<char>,
    len: nat,
    etag: Option<Seq<char>>,
) -> Seq<char> {
    status_line_of(code, reason) + "Content-Type: "@ + content_type + "\r\nContent-Length: "@
        + decimal(len) + "\r\n"@ + etag_line_of(etag) + closing_of()
}

/// The head of an answer that must not be cached.
pub open spec fn no_cache_head_of(code: nat, reason: Seq<char>, content_type: Seq<char>, len: nat) -> Seq<char> {
    status_line_of(code, reason) + "Content-Type: "@ + content_type
        + "\r\nCache-Control: no-store\r\nContent-Length: "@ + decimal(len) + "\r\n"@ + closing_of()
}

/// The head of a `304 Not Modified` answer.
pub open spec fn not_modified_head_of(etag: Seq<char>) -> Seq<char> {
    "HTTP/1.1 304 Not Modified\r\nETag: "@ + etag + "\r\n"@ + closing_of()
}

/// The text of an optional string slice.
pub open spec fn opt_str_view(o: Option<&str>) -> Option<Seq<char>> {
    match o {
        Some(s) => Some(s@),
        None => None,
    }
}

/// The text of an optional string.
pub open spec fn opt_string_view(o: Option<String>) -> Option<Seq<char>> {
    match o {
        Some(s) => Some(s@),
        None => None,
    }
}

fn push_status_line(s: &mut String, code: u16, reason: &str)
    ensures
        final(s)@ == old(s)@ + status_line_of(code as nat, reason@),
{
    s.append("HTTP/1.1 ");
    push_chars(s, &decimal_chars(code as u64));
    push_char(s, ' ');
    s.append(reason);
    s.append("\r\n");
}

fn push_closing(s: &mut String)
    ensures
        final(s)@ == old(s)@ + closing_of(),
{
    s.append(SECURITY_HEADERS);
    s.append("Connection: close\r\n\r\n");
}

/// The status line and headers of an answer whose body has
/// `content_length` bytes, with an `ETag` when one is given.
pub fn response_head(
    code: u16,
    reason: &str,
    content_type: &str,
    content_length: u64,
    etag: Option<&str>,
) -> (r: String)
    ensures
        r@ == response_head_of(
            code as nat,
            reason@,
            content_type@,
            content_length as nat,
            opt_str_view(etag),
        ),
{
    let mut s = String::new();
    push_status_line(&mut s, code, reason);
    s.append("Content-Type: ");
    s.append(content_type);
    s.append("\r\nContent-Length: ");
    push_chars(&mut s, &decimal_chars(content_length));
    s.append("\r\n");
    match etag {
        Some(e) => {
            s.append("ETag: ");
            s.append(e);
            s.append("\r\n");
        },
        None => {},
    }
    push_closing(&mut s);
    s
}

/// The status line and headers of an answer that must not be cached.
pub fn no_cache_head(code: u16, reason: &str, content_type: &str, content_length: u64) -> (r: String)
    ensures
        r@ == no_cache_head_of(code as nat, reason@, content_type@, content_length as nat),
{
    let mut s = String::new();
    push_status_line(&mut s, code, reason);
    s.append("Content-Type: ");
    s.append(content_type);
    s.append("\r\nCache-Control: no-store\r\nContent-Length: ");
    push_chars(&mut s, &decimal_chars(content_length));
    s.append("\r\n");
    push_closing(&mut s);
    s
}

/// The status line and headers of a `304 Not Modified` answer.
pub fn not_modified_head(etag: &str) -> (r: String)
    ensures
        r@ == not_modified_head_of(etag@),
{
    let mut s = String::from_str("HTTP/1.1 304 Not Modified\r\nETag: ");
    s.append(etag);
    s.append("\r\n");
    push_closing(&mut s);
    s
}

// ---------------------------------------------------------------------------
// Routing a request
// ---------------------------------------------------------------------------

/// The first line of a raw request, or nothing.
pub open spec fn request_line(req: Seq<char>) -> Seq<char> {
    let ls = lines(req);
    if ls.len() == 0 {
        Seq::<char>::empty()
    } else {
        ls[0]
    }
}

/// The method of a raw request: the first word of its first line.
pub open spec fn request_method(req: Seq<char>) -> Seq<char> {
    let w = ws_words(request_line(req));
    if w.len() > 0 {
        w[0]
    } else {
        Seq::<char>::empty()
    }
}

/// The target of a raw request: the second word of its first line, `/`
/// when there is none.
pub open spec fn request_uri(req: Seq<char>) -> Seq<char> {
    let w = ws_words(request_line(req));
    if w.len() > 1 {
        w[1]
    } else {
        "/"@
    }
}

/// The target's path, without a query.
pub open spec fn request_path(req: Seq<char>) -> Seq<char> {
    before_char(request_uri(req), '?')
}

/// Whether the server answers the method: `GET` and `HEAD` only.
pub open spec fn method_allowed(m: Seq<char>) -> bool {
    m == "GET"@ || m == "HEAD"@
}

/// Whether a request asks for one of the live-reload endpoints.
pub open spec fn live_endpoint(req: Seq<char>, live_reload: bool) -> bool {
    live_reload && (request_path(req) == REVISION_PATH@ || request_path(req) == LIVE_JS_PATH@)
}

/// The answer a request gets before any file is looked at.
#[derive(Debug, Clone, PartialEq, Eq)]
pub enum Route {
    /// `405 Method Not Allowed`.
    MethodNotAllowed,
    /// The current site revision, with live reload on.
    Revision,
    /// The live-reload script, with live reload on.
    LiveScript,
    /// `400 Bad Request`: the path cannot be decoded or leaves the site.
    BadRequest,
    /// The file or directory at `path`; `head` for a `HEAD` request.
    File { head: bool, path: String },
}

/// Decides how to answer a raw request for the site under `public`.
pub fn route_request(public: &str, req: &str, live_reload: bool) -> (r: Route)
    ensures
        !method_allowed(request_method(req@)) ==> r is MethodNotAllowed,
        method_allowed(request_method(req@)) && live_reload && request_path(req@) == REVISION_PATH@
            ==> r is Revision,
        method_allowed(request_method(req@)) && live_reload && request_path(req@)
            != REVISION_PATH@ && request_path(req@) == LIVE_JS_PATH@ ==> r is LiveScript,
        method_allowed(request_method(req@)) && !live_endpoint(req@, live_reload) ==> match candidate_path_of(
            public@,
            request_uri(req@),
        ) {
            None => r is BadRequest,
            Some(p) => r matches Route::File { head, path } && head == (request_method(req@)
                == "HEAD"@) && path@ == p,
        },
{
    let cs = chars_of(req);
    let ls = lines_vec(&cs);
    let line: Vec<char> = if ls.len() > 0 {
        assert(views(ls@)[0] == ls@[0]@);
        copy_chars(&ls[0])
    } else {
        Vec::new()
    };
    assert(line@ == request_line(req@));
    let words = ws_words_vec(&line);
    let method: Vec<char> = if words.len() > 0 {
        assert(views(words@)[0] == words@[0]@);
        copy_chars(&words[0])
    } else {
        Vec::new()
    };
    let uri: Vec<char> = if words.len() > 1 {
        assert(views(words@)[1] == words@[1]@);
        copy_chars(&words[1])
    } else {
        chars_of("/")
    };
    assert(method@ == request_method(req@));
    assert(uri@ == request_uri(req@));
    let is_get = eq_str(&method, "GET");
    let is_head = eq_str(&method, "HEAD");
    if !is_get && !is_head {
        return Route::MethodNotAllowed;
    }
    let q: Vec<char> = match find_char_vec(&uri, '?') {
        Some(k) => {
            proof {
                lemma_find_from_bounds(uri@, seq!['?'], 0);
            }
            let t = subvec(&uri, 0, k);
            assert(t@ =~= uri@.take(k as int));
            t
        },
        None => copy_chars(&uri),
    };
    assert(q@ == request_path(req@));
    if live_reload && eq_str(&q, REVISION_PATH) {
        return Route::Revision;
    }
    if live_reload && eq_str(&q, LIVE_JS_PATH) {
        return Route::LiveScript;
    }
    let uri_s = string_of(&uri);
    match candidate_public_path(public, uri_s.as_str()) {
        None => Route::BadRequest,
        Some(p) => Route::File { head: is_head, path: p },
    }
}

/// Whether a file's answer may carry an entity tag: all but HTML pages
/// while live reload rewrites them.
pub open spec fn cacheable_of(path: Seq<char>, live_reload: bool) -> bool {
    !(live_reload && starts_with(mime_of(path), "text/html"@))
}

/// Whether a file's answer may carry an entity tag.
pub fn is_cacheable(path: &str, live_reload: bool) -> (r: bool)
    ensures
        r == cacheable_of(path@, live_reload),
{
    let m = chars_of(mime_type(path));
    !(live_reload && starts_with_str(&m, "text/html"))
}

/// The entity tag an answer carries: the file's, when it may be cached.
pub open spec fn served_etag(path: Seq<char>, live_reload: bool, etag: Option<Seq<char>>) -> Option<
    Seq<char>,
> {
    if cacheable_of(path, live_reload) {
        etag
    } else {
        None
    }
}

/// Whether the client already holds the file: its `If-None-Match` header
/// equals the served entity tag.
pub open spec fn revalidated(req: Seq<char>, path: Seq<char>, live_reload: bool, etag: Option<Seq<char>>) -> bool {
    match served_etag(path, live_reload, etag) {
        Some(e) => header_value_of(req, "if-none-match"@) == Some(e),
        None => false,
    }
}

/// How a file found under the site is answered.
#[derive(Debug, Clone, PartialEq, Eq)]
pub enum FileReply {
    /// `304 Not Modified` with the tag.
    NotModified { tag: String },
    /// The head only, for a `HEAD` request.
    Head { mime: &'static str, etag: Option<String> },
    /// The page with the live-reload tag put in.
    Inject { mime: &'static str },
    /// The file as it is.
    Whole { mime: &'static str, etag: Option<String> },
}

/// Decides how to answer a request for the file at `path`, given the
/// file's entity tag when it was computed.
pub fn plan_file_reply(req: &str, head: bool, live_reload: bool, path: &str, etag: Option<String>) -> (r:
    FileReply)
    ensures
        (r is NotModified) == revalidated(req@, path@, live_reload, opt_string_view(etag)),
        r matches FileReply::NotModified { tag: t } ==> served_etag(
            path@,
            live_reload,
            opt_string_view(etag),
        ) == Some(t@),
        (r is Head) == (!revalidated(req@, path@, live_reload, opt_string_view(etag)) && head),
        r matches FileReply::Head { mime, etag: t } ==> mime@ == mime_of(path@) && opt_string_view(t)
            == served_etag(path@, live_reload, opt_string_view(etag)),
        (r is Inject) == (!revalidated(req@, path@, live_reload, opt_string_view(etag)) && !head
            && !cacheable_of(path@, live_reload)),
        r matches FileReply::Inject { mime } ==> mime@ == mime_of(path@),
        (r is Whole) == (!revalidated(req@, path@, live_reload, opt_string_view(etag)) && !head
            && cacheable_of(path@, live_reload)),
        r matches FileReply::Whole { mime, etag: t } ==> mime@ == mime_of(path@) && opt_string_view(t)
            == served_etag(path@, live_reload, opt_string_view(etag)),
{
    let mime = mime_type(path);
    let cacheable = is_cacheable(path, live_reload);
    let served: Option<String> = if cacheable {
        etag
    } else {
        None
    };
    assert(opt_string_view(served) == served_etag(path@, live_reload, opt_string_view(etag)));
    match &served {
        Some(e) => {
            match header_value(req, "if-none-match") {
                Some(given) => {
                    let gv = chars_of(given.as_str());
                    let ev = chars_of(e.as_str());
                    if vec_eq(&gv, &ev) {
                        return FileReply::NotModified { tag: string_of(&ev) };
                    }
                },
                None => {},
            }
        },
        None => {},
    }
    if head {
        FileReply::Head { mime, etag: served }
    } else if !cacheable {
        FileReply::Inject { mime }
    } else {
        FileReply::Whole { mime, etag: served }
    }
}

} // verus!
