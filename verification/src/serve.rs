//! Request handling of the development server: decoding request paths,
//! reading headers, choosing content types and injecting live reload.
use vstd::prelude::*;
use vstd::utf8::{decode_utf8, encode_utf8, valid_utf8};

use crate::paths::{cur_comp, extension_of, file_name, file_name_of, join_path_of, parent_comp, rfind_char_vec};
use crate::text::{chars_of, contains_char, find_char, find_char_vec, lemma_find_from_bounds, split_char, split_char_vec, string_of, strip_start_char, subvec, views};

verus! {

broadcast use vstd::string::group_string_axioms;

// ---------------------------------------------------------------------------
// Percent decoding
// ---------------------------------------------------------------------------

pub open spec fn is_hex_byte(b: u8) -> bool {
    (48 <= b && b <= 57) || (65 <= b && b <= 70) || (97 <= b && b <= 102)
}

pub open spec fn hex_value(b: u8) -> nat {
    if 48 <= b && b <= 57 {
        (b - 48) as nat
    } else if 65 <= b && b <= 70 {
        (b - 55) as nat
    } else {
        (b - 87) as nat
    }
}

/// The byte that the two characters after a `%` denote, read as a
/// base-16 `u8` (`u8::from_str_radix`): two hex digits, or `+` and one.
pub open spec fn hex_pair(b1: u8, b2: u8) -> Option<u8> {
    if is_hex_byte(b1) && is_hex_byte(b2) {
        Some((hex_value(b1) * 16 + hex_value(b2)) as u8)
    } else if b1 == 43 && is_hex_byte(b2) {
        Some(hex_value(b2) as u8)
    } else {
        None
    }
}

fn hex_digit(b: u8) -> (r: Option<u8>)
    ensures
        r is Some <==> is_hex_byte(b),
        r matches Some(v) ==> v == hex_value(b) && v < 16,
{
    if 48 <= b && b <= 57 {
        Some(b - 48)
    } else if 65 <= b && b <= 70 {
        Some(b - 55)
    } else if 97 <= b && b <= 102 {
        Some(b - 87)
    } else {
        None
    }
}

fn parse_hex_pair(b1: u8, b2: u8) -> (r: Option<u8>)
    ensures
        r == hex_pair(b1, b2),
{
    match (hex_digit(b1), hex_digit(b2)) {
        (Some(h), Some(l)) => Some(h * 16 + l),
        (None, Some(l)) => {
            if b1 == 43 {
                Some(l)
            } else {
                None
            }
        },
        _ => None,
    }
}

/// The bytes that `b[i..]` decodes to: `%` and a byte in base 16 stands for
/// that byte, other bytes stand for themselves; none when a `%` is not
/// followed by two characters that read as a byte.
pub open spec fn decode_from(b: Seq<u8>, i: int) -> Option<Seq<u8>>
    decreases b.len() - i,
{
    if i < 0 || i >= b.len() {
        Some(Seq::<u8>::empty())
    } else if b[i] == 37 {
        if i + 2 >= b.len() {
            None
        } else {
            match hex_pair(b[i + 1], b[i + 2]) {
                None => None,
                Some(v) => match decode_from(b, i + 3) {
                    None => None,
                    Some(rest) => Some(seq![v] + rest),
                },
            }
        }
    } else {
        match decode_from(b, i + 1) {
            None => None,
            Some(rest) => Some(seq![b[i]] + rest),
        }
    }
}

/// The text that the percent-encoded `s` stands for, when its bytes decode
/// and form UTF-8.
pub open spec fn percent_decoded(s: Seq<char>) -> Option<Seq<char>> {
    match decode_from(encode_utf8(s), 0) {
        None => None,
        Some(out) => if valid_utf8(out) {
            Some(decode_utf8(out))
        } else {
            None
        },
    }
}

/// `String::from_utf8`: the string that `bytes` encode, when they are
/// valid UTF-8.
#[verifier::external_body]
pub(crate) fn string_from_utf8(bytes: Vec<u8>) -> (r: Option<String>)
    ensures
        r is Some <==> valid_utf8(bytes@),
        r matches Some(s) ==> s@ == decode_utf8(bytes@),
{
    String::from_utf8(bytes).ok()
}

/// Decodes `%XX` escapes in a request path.
pub fn percent_decode(s: &str) -> (r: Option<String>)
    ensures
        match r {
            Some(t) => percent_decoded(s@) == Some(t@),
            None => percent_decoded(s@) is None,
        },
{
    let bytes = s.as_bytes();
    let ghost b = bytes@;
    let mut out: Vec<u8> = Vec::new();
    let mut i: usize = 0;
    assert(out@ + Seq::<u8>::empty() =~= out@);
    while i < bytes.len()
        invariant
            i <= bytes.len(),
            b == bytes@,
            b == encode_utf8(s@),
            decode_from(b, 0) == match decode_from(b, i as int) {
                None => None,
                Some(rest) => Some(out@ + rest),
            },
        decreases bytes.len() - i,
    {
        if bytes[i] == 37 {
            if bytes.len() - i <= 2 {
                return None;
            }
            match parse_hex_pair(bytes[i + 1], bytes[i + 2]) {
                None => {
                    return None;
                },
                Some(v) => {
                    let ghost o0 = out@;
                    out.push(v);
                    proof {
                        match decode_from(b, i + 3) {
                            None => {},
                            Some(rest) => {
                                assert(o0 + (seq![v] + rest) =~= out@ + rest);
                            },
                        }
                    }
                    i += 3;
                },
            }
        } else {
            let ghost o0 = out@;
            out.push(bytes[i]);
            proof {
                match decode_from(b, i + 1) {
                    None => {},
                    Some(rest) => {
                        assert(o0 + (seq![b[i as int]] + rest) =~= out@ + rest);
                    },
                }
            }
            i += 1;
        }
    }
    assert(out@ + Seq::<u8>::empty() =~= out@);
    string_from_utf8(out)
}

// ---------------------------------------------------------------------------
// Request paths
// ---------------------------------------------------------------------------

/// The text of `s` before its first `c`.
pub open spec fn before_char(s: Seq<char>, c: char) -> Seq<char> {
    match find_char(s, c) {
        Some(k) => s.take(k),
        None => s,
    }
}

/// Whether a path piece is refused in a request: `..` or holding `\`.
pub open spec fn bad_request_piece(p: Seq<char>) -> bool {
    p == parent_comp() || p.contains('\\')
}

/// Whether a path piece is skipped in a request: empty or `.`.
pub open spec fn skipped_piece(p: Seq<char>) -> bool {
    p.len() == 0 || p == cur_comp()
}

/// `base` with the kept pieces of `parts` pushed in order.
pub open spec fn push_pieces(base: Seq<char>, parts: Seq<Seq<char>>) -> Seq<char>
    decreases parts.len(),
{
    if parts.len() == 0 {
        base
    } else {
        let prev = push_pieces(base, parts.drop_last());
        if skipped_piece(parts.last()) {
            prev
        } else {
            join_path_of(prev, parts.last())
        }
    }
}

/// The file under `public` that a request URI names: the path before any
/// `?`, percent-decoded, split at `/`; none when decoding fails, the path
/// holds a NUL, or a piece is `..` or holds `\`.
pub open spec fn candidate_path_of(public: Seq<char>, uri: Seq<char>) -> Option<Seq<char>> {
    match percent_decoded(before_char(uri, '?')) {
        None => None,
        Some(d) => if d.contains('\0') {
            None
        } else {
            let parts = split_char(strip_start_char(d, '/'), '/');
            if exists|k: int| 0 <= k < parts.len() && bad_request_piece(#[trigger] parts[k]) {
                None
            } else {
                Some(push_pieces(public, parts))
            }
        },
    }
}

/// The path under `public` that a request URI names, if it is safe.
pub fn candidate_public_path(public: &str, uri: &str) -> (r: Option<String>)
    ensures
        match r {
            Some(p) => candidate_path_of(public@, uri@) == Some(p@),
            None => candidate_path_of(public@, uri@) is None,
        },
{
    let u = chars_of(uri);
    let q = match find_char_vec(&u, '?') {
        Some(k) => {
            proof {
                lemma_find_from_bounds(u@, seq!['?'], 0);
            }
            let q = subvec(&u, 0, k);
            assert(q@ =~= u@.take(k as int));
            q
        },
        None => subvec(&u, 0, u.len()),
    };
    assert(q@ =~= before_char(uri@, '?'));
    let qs = string_of(&q);
    let decoded = match percent_decode(qs.as_str()) {
        Some(d) => d,
        None => return None,
    };
    let d = chars_of(decoded.as_str());
    if contains_char(&d, '\0') {
        return None;
    }
    let mut start: usize = 0;
    assert(d@.skip(0) =~= d@);
    while start < d.len() && d[start] == '/'
        invariant
            start <= d.len(),
            strip_start_char(d@, '/') == strip_start_char(d@.skip(start as int), '/'),
        decreases d.len() - start,
    {
        assert(d@.skip(start as int).drop_first() =~= d@.skip(start + 1));
        start += 1;
    }
    let rest = subvec(&d, start, d.len());
    assert(rest@ =~= d@.skip(start as int));
    assert(strip_start_char(rest@, '/') == rest@);
    let parts = split_char_vec(&rest, '/');
    let ghost pv = views(parts@);
    let mut path = String::from_str(public);
    let mut i: usize = 0;
    while i < parts.len()
        invariant
            i <= parts.len(),
            pv == views(parts@),
            pv == split_char(rest@, '/'),
            rest@ == strip_start_char(d@, '/'),
            percent_decoded(before_char(uri@, '?')) == Some(d@),
            !d@.contains('\0'),
            forall|k: int| 0 <= k < i ==> !bad_request_piece(#[trigger] pv[k]),
            path@ == push_pieces(public@, pv.take(i as int)),
        decreases parts.len() - i,
    {
        assert(pv.take(i + 1).drop_last() =~= pv.take(i as int));
        assert(pv.take(i + 1).last() == parts@[i as int]@);
        let part = &parts[i];
        let is_dot = part.len() == 1 && part[0] == '.';
        let is_dotdot = part.len() == 2 && part[0] == '.' && part[1] == '.';
        proof {
            if is_dot {
                assert(part@ =~= cur_comp());
            }
            if is_dotdot {
                assert(part@ =~= parent_comp());
            }
            if part@ == cur_comp() {
                assert(part@[0] == '.');
            }
            if part@ == parent_comp() {
                assert(part@[0] == '.' && part@[1] == '.');
            }
        }
        if part.len() == 0 || is_dot {
        } else if is_dotdot || contains_char(part, '\\') {
            assert(bad_request_piece(pv[i as int]));
            return None;
        } else {
            let ps = string_of(part);
            let joined = crate::paths::join_path(path.as_str(), ps.as_str());
            assert(part@.len() > 0 && part@[0] != '/') by {
                assert(!part@.contains('/')) by {
                    crate::text::lemma_split_char_pieces(rest@, '/');
                    assert(pv[i as int] == split_char(rest@, '/')[i as int]);
                }
                if part@[0] == '/' {
                    assert(part@.contains('/'));
                }
            }
            path = joined;
        }
        i += 1;
    }
    assert(pv.take(parts.len() as int) =~= pv);
    Some(path)
}

// ---------------------------------------------------------------------------
// Headers and content types
// ---------------------------------------------------------------------------

/// Whether `a` and `b` are equal ignoring ASCII case.
pub open spec fn eq_ignore_ascii_case(a: Seq<char>, b: Seq<char>) -> bool {
    a.len() == b.len() && forall|i: int|
        0 <= i < a.len() ==> crate::text::ascii_lower(#[trigger] a[i]) == crate::text::ascii_lower(
            b[i],
        )
}


fn eq_ignore_ascii_case_vec(a: &Vec<char>, b: &Vec<char>) -> (r: bool)
    ensures
        r == eq_ignore_ascii_case(a@, b@),
{
    if a.len() != b.len() {
        return false;
    }
    let mut i: usize = 0;
    while i < a.len()
        invariant
            i <= a.len(),
            a.len() == b.len(),
            forall|k: int|
                0 <= k < i ==> crate::text::ascii_lower(#[trigger] a@[k]) == crate::text::ascii_lower(
                    b@[k],
                ),
        decreases a.len() - i,
    {
        if crate::text::to_ascii_lowercase(a[i]) != crate::text::to_ascii_lowercase(b[i]) {
            return false;
        }
        i += 1;
    }
    true
}

/// The value that one request line gives for the header `name`: the line
/// splits at its first `:` into a name and a value, both trimmed.
pub open spec fn header_line_value(line: Seq<char>, name: Seq<char>) -> Option<Seq<char>> {
    match find_char(line, ':') {
        None => None,
        Some(k) => if eq_ignore_ascii_case(crate::text::trim(line.take(k)), name) {
            Some(crate::text::trim(line.skip(k + 1)))
        } else {
            None
        },
    }
}

/// The value from the first of `ls` that gives one for `name`.
pub open spec fn first_header(ls: Seq<Seq<char>>, name: Seq<char>) -> Option<Seq<char>>
    decreases ls.len(),
{
    if ls.len() == 0 {
        None
    } else {
        match header_line_value(ls[0], name) {
            Some(v) => Some(v),
            None => first_header(ls.drop_first(), name),
        }
    }
}

/// The value of the header `name` in a raw request: the first header line
/// after the request line whose name matches, ignoring ASCII case.
pub open spec fn header_value_of(req: Seq<char>, name: Seq<char>) -> Option<Seq<char>> {
    let ls = crate::text::lines(req);
    if ls.len() == 0 {
        None
    } else {
        first_header(ls.drop_first(), name)
    }
}

/// The value of a request header.
pub fn header_value(req: &str, name: &str) -> (r: Option<String>)
    ensures
        match r {
            Some(v) => header_value_of(req@, name@) == Some(v@),
            None => header_value_of(req@, name@) is None,
        },
{
    let cs = chars_of(req);
    let nm = chars_of(name);
    let ls = crate::text::lines_vec(&cs);
    let ghost lv = views(ls@);
    if ls.len() == 0 {
        return None;
    }
    let mut i: usize = 1;
    assert(lv.drop_first().skip(0) =~= lv.skip(1));
    while i < ls.len()
        invariant
            1 <= i <= ls.len(),
            lv == views(ls@),
            lv == crate::text::lines(req@),
            nm@ == name@,
            header_value_of(req@, name@) == first_header(lv.skip(i as int), name@),
        decreases ls.len() - i,
    {
        assert(lv.skip(i as int)[0] == ls@[i as int]@);
        assert(lv.skip(i as int).drop_first() =~= lv.skip(i + 1));
        let line = &ls[i];
        match find_char_vec(line, ':') {
            Some(k) => {
                proof {
                    lemma_find_from_bounds(line@, seq![':'], 0);
                }
                let key = subvec(line, 0, k);
                assert(key@ =~= line@.take(k as int));
                let key_t = crate::text::trim_vec(&key);
                if eq_ignore_ascii_case_vec(&key_t, &nm) {
                    let val = subvec(line, k + 1, line.len());
                    assert(val@ =~= line@.skip(k + 1));
                    let val_t = crate::text::trim_vec(&val);
                    return Some(string_of(&val_t));
                }
            },
            None => {},
        }
        i += 1;
    }
    assert(lv.skip(ls.len() as int) =~= Seq::<Seq<char>>::empty());
    None
}

pub const MIME_RSS: &'static str = "application/rss+xml; charset=utf-8";

pub const MIME_ATOM: &'static str = "application/atom+xml; charset=utf-8";

pub const MIME_XML: &'static str = "application/xml; charset=utf-8";

pub const MIME_HTML: &'static str = "text/html; charset=utf-8";

pub const MIME_CSS: &'static str = "text/css; charset=utf-8";

pub const MIME_JS: &'static str = "text/javascript; charset=utf-8";

pub const MIME_JSON: &'static str = "application/json; charset=utf-8";

pub const MIME_SVG: &'static str = "image/svg+xml";

pub const MIME_PNG: &'static str = "image/png";

pub const MIME_JPEG: &'static str = "image/jpeg";

pub const MIME_GIF: &'static str = "image/gif";

pub const MIME_WEBP: &'static str = "image/webp";

pub const MIME_PDF: &'static str = "application/pdf";

pub const MIME_OCTET: &'static str = "application/octet-stream";

/// The content type for a file extension.
pub open spec fn mime_for_extension(ext: Seq<char>) -> Seq<char> {
    if ext == "html"@ {
        MIME_HTML@
    } else if ext == "css"@ {
        MIME_CSS@
    } else if ext == "js"@ {
        MIME_JS@
    } else if ext == "json"@ {
        MIME_JSON@
    } else if ext == "xml"@ {
        MIME_XML@
    } else if ext == "svg"@ {
        MIME_SVG@
    } else if ext == "png"@ {
        MIME_PNG@
    } else if ext == "jpg"@ || ext == "jpeg"@ {
        MIME_JPEG@
    } else if ext == "gif"@ {
        MIME_GIF@
    } else if ext == "webp"@ {
        MIME_WEBP@
    } else if ext == "pdf"@ {
        MIME_PDF@
    } else {
        MIME_OCTET@
    }
}

/// The content type of a served file: feeds and sitemaps by file name,
/// everything else by extension.
pub open spec fn mime_of(path: Seq<char>) -> Seq<char> {
    let name = match file_name_of(path) {
        Some(n) => n,
        None => Seq::<char>::empty(),
    };
    if name == "feed.xml"@ || name == "rss.xml"@ {
        MIME_RSS@
    } else if name == "atom.xml"@ {
        MIME_ATOM@
    } else if name == "sitemap.xml"@ {
        MIME_XML@
    } else {
        match file_name_of(path) {
            Some(n) => match extension_of(n) {
                Some(e) => mime_for_extension(e),
                None => MIME_OCTET@,
            },
            None => MIME_OCTET@,
        }
    }
}

fn mime_for_ext(e: &Vec<char>) -> (r: &'static str)
    ensures
        r@ == mime_for_extension(e@),
{
    if crate::text::eq_str(e, "html") {
        MIME_HTML
    } else if crate::text::eq_str(e, "css") {
        MIME_CSS
    } else if crate::text::eq_str(e, "js") {
        MIME_JS
    } else if crate::text::eq_str(e, "json") {
        MIME_JSON
    } else if crate::text::eq_str(e, "xml") {
        MIME_XML
    } else if crate::text::eq_str(e, "svg") {
        MIME_SVG
    } else if crate::text::eq_str(e, "png") {
        MIME_PNG
    } else if crate::text::eq_str(e, "jpg") || crate::text::eq_str(e, "jpeg") {
        MIME_JPEG
    } else if crate::text::eq_str(e, "gif") {
        MIME_GIF
    } else if crate::text::eq_str(e, "webp") {
        MIME_WEBP
    } else if crate::text::eq_str(e, "pdf") {
        MIME_PDF
    } else {
        MIME_OCTET
    }
}

/// The content type of a file the server sends.
pub fn mime_type(path: &str) -> (r: &'static str)
    ensures
        r@ == mime_of(path@),
{
    let p = chars_of(path);
    let name = match file_name(&p) {
        Some(n) => n,
        None => Vec::new(),
    };
    if crate::text::eq_str(&name, "feed.xml") || crate::text::eq_str(&name, "rss.xml") {
        return MIME_RSS;
    }
    if crate::text::eq_str(&name, "atom.xml") {
        return MIME_ATOM;
    }
    if crate::text::eq_str(&name, "sitemap.xml") {
        return MIME_XML;
    }
    match file_name(&p) {
        Some(n) => match rfind_char_vec(&n, '.') {
            None => MIME_OCTET,
            Some(k) => {
                proof {
                    crate::paths::lemma_rfind_char(n@, '.');
                }
                if k == 0 {
                    MIME_OCTET
                } else {
                    let e = subvec(&n, k + 1, n.len());
                    assert(e@ =~= n@.skip(k + 1));
                    mime_for_ext(&e)
                }
            },
        },
        None => MIME_OCTET,
    }
}


// ---------------------------------------------------------------------------
// Live reload
// ---------------------------------------------------------------------------

/// The tag that loads the live-reload script.
pub const LIVE_RELOAD_TAG: &'static str = "<script src=\"/__typage/live.js\" defer></script>";

/// The text that `String::from_utf8_lossy` makes of `bytes`.
pub uninterp spec fn lossy_utf8(bytes: Seq<u8>) -> Seq<char>;

/// The lowercase form that `str::to_lowercase` gives of `s`.
pub uninterp spec fn str_lowercase(s: Seq<char>) -> Seq<char>;

/// `String::from_utf8_lossy`. The result is the named text `lossy_utf8`;
/// for valid UTF-8 it is the decoded text, as std documents. How invalid
/// sequences are replaced is left unsaid.
#[verifier::external_body]
fn from_utf8_lossy(bytes: &Vec<u8>) -> (r: String)
    ensures
        r@ == lossy_utf8(bytes@),
        valid_utf8(bytes@) ==> r@ == decode_utf8(bytes@),
{
    String::from_utf8_lossy(bytes).into_owned()
}

/// `str::to_lowercase`. The result is the named text `str_lowercase`; for
/// ASCII text it is the ASCII lowercase of each character, as std
/// documents. The mapping of other characters follows the Unicode tables of
/// the std version in use and is left unsaid.
#[verifier::external_body]
fn to_lowercase_str(s: &str) -> (r: String)
    ensures
        r@ == str_lowercase(s@),
        (forall|i: int| 0 <= i < s@.len() ==> (#[trigger] s@[i] as u32) < 128) ==> r@ == s@.map_values(
            |c: char| crate::text::ascii_lower(c),
        ),
{
    s.to_lowercase()
}

/// Whether `p` occurs in `s` at `i`.
pub open spec fn bytes_match_at(s: Seq<u8>, p: Seq<u8>, i: int) -> bool {
    0 <= i && i + p.len() <= s.len() && s.subrange(i, i + p.len()) == p
}

/// The last position at or before `i` where `p` occurs in `s`.
pub open spec fn rfind_bytes_upto(s: Seq<u8>, p: Seq<u8>, i: int) -> Option<int>
    decreases i + 1,
{
    if i < 0 {
        None
    } else if bytes_match_at(s, p, i) {
        Some(i)
    } else {
        rfind_bytes_upto(s, p, i - 1)
    }
}

/// The last position where `p` occurs in `s` (`str::rfind`).
pub open spec fn rfind_bytes(s: Seq<u8>, p: Seq<u8>) -> Option<int> {
    rfind_bytes_upto(s, p, s.len() - p.len())
}

fn bytes_match_at_exec(s: &[u8], p: &[u8], i: usize) -> (r: bool)
    ensures
        r == bytes_match_at(s@, p@, i as int),
{
    if i > s.len() || p.len() > s.len() - i {
        return false;
    }
    let mut k: usize = 0;
    while k < p.len()
        invariant
            i + p.len() <= s.len(),
            k <= p.len(),
            forall|j: int| 0 <= j < k ==> s@[i + j] == p@[j],
        decreases p.len() - k,
    {
        if s[i + k] != p[k] {
            assert(s@.subrange(i as int, i + p.len())[k as int] != p@[k as int]);
            return false;
        }
        k += 1;
    }
    assert(s@.subrange(i as int, i + p.len()) =~= p@);
    true
}

fn rfind_bytes_exec(s: &[u8], p: &[u8]) -> (r: Option<usize>)
    ensures
        match r {
            Some(k) => rfind_bytes(s@, p@) == Some(k as int),
            None => rfind_bytes(s@, p@) is None,
        },
{
    if p.len() > s.len() {
        assert(rfind_bytes_upto(s@, p@, s@.len() - p@.len()) is None);
        return None;
    }
    let mut j: usize = s.len() - p.len();
    loop
        invariant
            j <= s.len() - p.len(),
            p.len() <= s.len(),
            rfind_bytes(s@, p@) == rfind_bytes_upto(s@, p@, j as int),
        decreases j,
    {
        if bytes_match_at_exec(s, p, j) {
            return Some(j);
        }
        if j == 0 {
            assert(rfind_bytes_upto(s@, p@, -1) is None);
            return None;
        }
        j -= 1;
    }
}

/// The text of a page's bytes: the decoded text for valid UTF-8, else what
/// `String::from_utf8_lossy` makes of them.
pub open spec fn page_text(body: Seq<u8>) -> Seq<char> {
    if valid_utf8(body) {
        decode_utf8(body)
    } else {
        lossy_utf8(body)
    }
}

/// Whether every character of `s` is ASCII.
pub open spec fn all_ascii(s: Seq<char>) -> bool {
    forall|i: int| 0 <= i < s.len() ==> (#[trigger] s[i] as u32) < 128
}

/// The lowercase form of a text: each character's ASCII lowercase for
/// ASCII text, else what `str::to_lowercase` gives.
pub open spec fn lowered(s: Seq<char>) -> Seq<char> {
    if all_ascii(s) {
        s.map_values(|c: char| crate::text::ascii_lower(c))
    } else {
        str_lowercase(s)
    }
}

/// Where the live-reload tag goes in a served HTML page: before the last
/// `</body>` of the page's lowercased text, by byte position.
pub open spec fn live_reload_position(body: Seq<u8>) -> Option<int> {
    rfind_bytes(encode_utf8(lowered(page_text(body))), encode_utf8("</body>"@))
}

/// The page with the live-reload tag at `pos`, or appended when there is
/// no position.
pub open spec fn with_live_reload(body: Seq<u8>, pos: Option<int>) -> Seq<u8> {
    match pos {
        Some(p) => body.take(p) + encode_utf8(LIVE_RELOAD_TAG@) + body.skip(p),
        None => body + encode_utf8(LIVE_RELOAD_TAG@),
    }
}

/// Whether the tag position lies within the page bytes.
pub open spec fn live_reload_fits(body: Seq<u8>) -> bool {
    match live_reload_position(body) {
        Some(p) => p <= body.len(),
        None => true,
    }
}

/// The byte position for the live-reload tag in `body`.
fn find_live_reload_position(body: &Vec<u8>) -> (r: Option<usize>)
    ensures
        match r {
            Some(k) => live_reload_position(body@) == Some(k as int),
            None => live_reload_position(body@) is None,
        },
{
    let text = from_utf8_lossy(body);
    let lower = to_lowercase_str(text.as_str());
    assert(text@ == page_text(body@));
    assert(lower@ == lowered(text@));
    rfind_bytes_exec(lower.as_str().as_bytes(), "</body>".as_bytes())
}

/// Puts the live-reload tag into a page at `pos`, or at its end.
fn insert_live_reload(body: Vec<u8>, pos: Option<usize>) -> (r: Vec<u8>)
    requires
        pos matches Some(p) ==> p <= body.len(),
    ensures
        r@ == with_live_reload(
            body@,
            match pos {
                Some(p) => Some(p as int),
                None => None,
            },
        ),
{
    let tag = LIVE_RELOAD_TAG.as_bytes();
    let split = match pos {
        Some(p) => p,
        None => body.len(),
    };
    let mut out: Vec<u8> = Vec::new();
    let mut i: usize = 0;
    while i < split
        invariant
            i <= split <= body.len(),
            out@ == body@.take(i as int),
        decreases split - i,
    {
        out.push(body[i]);
        i += 1;
        assert(out@ =~= body@.take(i as int));
    }
    let mut k: usize = 0;
    while k < tag.len()
        invariant
            k <= tag.len(),
            out@ == body@.take(split as int) + tag@.take(k as int),
        decreases tag.len() - k,
    {
        out.push(tag[k]);
        k += 1;
        assert(out@ =~= body@.take(split as int) + tag@.take(k as int));
    }
    assert(tag@.take(tag.len() as int) =~= tag@);
    let mut i: usize = split;
    while i < body.len()
        invariant
            split <= i <= body.len(),
            out@ == body@.take(split as int) + tag@ + body@.subrange(split as int, i as int),
        decreases body.len() - i,
    {
        out.push(body[i]);
        i += 1;
        assert(out@ =~= body@.take(split as int) + tag@ + body@.subrange(split as int, i as int));
    }
    assert(body@.subrange(split as int, body.len() as int) =~= body@.skip(split as int));
    assert(body@.take(body.len() as int) =~= body@);
    assert(body@.skip(body.len() as int) =~= Seq::<u8>::empty());
    out
}

/// Puts the live-reload tag into a served HTML page.
pub fn inject_live_reload(body: Vec<u8>) -> (r: Vec<u8>)
    requires
        live_reload_fits(body@),
    ensures
        r@ == with_live_reload(body@, live_reload_position(body@)),
{
    let pos = find_live_reload_position(&body);
    insert_live_reload(body, pos)
}

/// Puts the live-reload tag into a served HTML page when its position lies
/// within the page bytes; none otherwise.
pub fn try_inject_live_reload(body: Vec<u8>) -> (r: Option<Vec<u8>>)
    ensures
        r is Some <==> live_reload_fits(body@),
        r matches Some(v) ==> v@ == with_live_reload(body@, live_reload_position(body@)),
{
    match find_live_reload_position(&body) {
        Some(p) => {
            if p > body.len() {
                None
            } else {
                Some(inject_live_reload(body))
            }
        },
        None => Some(inject_live_reload(body)),
    }
}

} // verus!
