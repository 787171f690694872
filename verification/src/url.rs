//! Site URLs: directory URLs, aliases, sections and pagination.
use vstd::prelude::*;

use crate::paths::{cur_comp, join_path, join_path_of, parent_comp};
use crate::script::string_views;
use crate::text::{chars_of, contains_char, copy_chars, eq_str, push_char, push_chars, split_char, split_char_vec, string_of, strip_char, strip_char_vec, strip_end_char, strip_start_char, trim, trim_vec, views};
use crate::util::{join, join_vecs, slug_of, slugify};

verus! {

broadcast use vstd::string::group_string_axioms;

/// Why a URL, alias, slug or URL segment was refused.
#[derive(Debug, Clone, Copy, PartialEq, Eq)]
pub enum UrlError {
    /// The URL or slug is empty (after trimming white space).
    Empty,
    /// The text holds `\`, `?` or `#`.
    UnsafeCharacter,
    /// A segment is empty, `.` or `..`, or holds `\`, `?` or `#`.
    UnsafeSegment,
    /// A site URL does not start with `/`.
    NotRooted,
    /// A site URL holds a `.` or `..` segment.
    Traversal,
    /// A slug holds `/`.
    SlugHasSlash,
    /// A permalink pattern is blank.
    EmptyPermalink,
    /// A public file path is blank, holds `\`, `?` or `#`, or ends with
    /// `/`.
    UnsafeFilePath,
}

/// Whether `s` holds `\`, `?` or `#`.
pub open spec fn has_unsafe_char(s: Seq<char>) -> bool {
    s.contains('\\') || s.contains('?') || s.contains('#')
}

fn has_unsafe_char_vec(v: &Vec<char>) -> (r: bool)
    ensures
        r == has_unsafe_char(v@),
{
    contains_char(v, '\\') || contains_char(v, '?') || contains_char(v, '#')
}

/// Whether `seg` may stand as one segment of a URL.
pub open spec fn url_segment_ok(seg: Seq<char>) -> bool {
    seg.len() > 0 && seg != cur_comp() && seg != parent_comp() && !has_unsafe_char(seg)
}

fn is_dot_or_dotdot(v: &Vec<char>) -> (r: bool)
    ensures
        r == (v@ == cur_comp() || v@ == parent_comp()),
{
    let r = (v.len() == 1 && v[0] == '.') || (v.len() == 2 && v[0] == '.' && v[1] == '.');
    proof {
        if v.len() == 1 && v[0] == '.' {
            assert(v@ =~= cur_comp());
        }
        if v.len() == 2 && v[0] == '.' && v[1] == '.' {
            assert(v@ =~= parent_comp());
        }
    }
    r
}

/// Checks one URL segment.
pub fn validate_url_segment(seg: &Vec<char>) -> (r: Result<(), UrlError>)
    ensures
        r == (if url_segment_ok(seg@) {
            Ok::<(), UrlError>(())
        } else {
            Err::<(), UrlError>(UrlError::UnsafeSegment)
        }),
{
    if seg.len() == 0 || is_dot_or_dotdot(seg) || has_unsafe_char_vec(seg) {
        Err(UrlError::UnsafeSegment)
    } else {
        Ok(())
    }
}

/// Whether every piece of `parts` is a valid URL segment.
pub open spec fn all_segments_ok(parts: Seq<Seq<char>>) -> bool {
    forall|i: int| 0 <= i < parts.len() ==> url_segment_ok(#[trigger] parts[i])
}

/// The directory URL `/a/b/` that `url` denotes: white space trimmed,
/// slashes at both ends dropped, each segment checked.
pub open spec fn directory_url(url: Seq<char>) -> Result<Seq<char>, UrlError> {
    let t = trim(url);
    if t.len() == 0 {
        Err(UrlError::Empty)
    } else if has_unsafe_char(t) {
        Err(UrlError::UnsafeCharacter)
    } else {
        let clean = strip_char(t, '/');
        if clean.len() == 0 {
            Ok(seq!['/'])
        } else if !all_segments_ok(split_char(clean, '/')) {
            Err(UrlError::UnsafeSegment)
        } else {
            Ok(seq!['/'] + clean + seq!['/'])
        }
    }
}

/// Checks that every piece of `parts` is a valid URL segment.
fn check_segments(parts: &Vec<Vec<char>>) -> (r: bool)
    ensures
        r == all_segments_ok(views(parts@)),
{
    let mut i: usize = 0;
    while i < parts.len()
        invariant
            i <= parts.len(),
            forall|k: int| 0 <= k < i ==> url_segment_ok(#[trigger] views(parts@)[k]),
        decreases parts.len() - i,
    {
        assert(views(parts@)[i as int] == parts@[i as int]@);
        if validate_url_segment(&parts[i]).is_err() {
            return false;
        }
        i += 1;
    }
    true
}

/// Normalizes a directory URL to the form `/a/b/` (or `/`).
pub fn normalize_directory_url(url: &str) -> (r: Result<String, UrlError>)
    ensures
        match r {
            Ok(u) => directory_url(url@) == Ok::<Seq<char>, UrlError>(u@),
            Err(e) => directory_url(url@) == Err::<Seq<char>, UrlError>(e),
        },
{
    let cs = chars_of(url);
    let t = trim_vec(&cs);
    if t.len() == 0 {
        return Err(UrlError::Empty);
    }
    if has_unsafe_char_vec(&t) {
        return Err(UrlError::UnsafeCharacter);
    }
    let clean = strip_char_vec(&t, '/');
    if clean.len() == 0 {
        let mut s = String::new();
        push_char(&mut s, '/');
        assert(s@ =~= seq!['/']);
        return Ok(s);
    }
    let parts = split_char_vec(&clean, '/');
    if !check_segments(&parts) {
        return Err(UrlError::UnsafeSegment);
    }
    let mut s = String::new();
    push_char(&mut s, '/');
    push_chars(&mut s, &clean);
    push_char(&mut s, '/');
    assert(s@ =~= seq!['/'] + clean@ + seq!['/']);
    Ok(s)
}

/// The URL that an alias redirects from.
pub fn alias_to_url(alias: &str) -> (r: Result<String, UrlError>)
    ensures
        match r {
            Ok(u) => directory_url(alias@) == Ok::<Seq<char>, UrlError>(u@),
            Err(e) => directory_url(alias@) == Err::<Seq<char>, UrlError>(e),
        },
{
    normalize_directory_url(alias)
}

/// Whether `url` may serve as a site route: it starts with `/`, holds no
/// `\`, `?` or `#`, and no segment is `.` or `..`.
pub open spec fn url_path_check(url: Seq<char>) -> Result<(), UrlError> {
    if !(url.len() > 0 && url[0] == '/') {
        Err(UrlError::NotRooted)
    } else if has_unsafe_char(url) {
        Err(UrlError::UnsafeCharacter)
    } else if exists|i: int|
        0 <= i < split_char(strip_char(url, '/'), '/').len() && {
            let p = #[trigger] split_char(strip_char(url, '/'), '/')[i];
            p == cur_comp() || p == parent_comp()
        } {
        Err(UrlError::Traversal)
    } else {
        Ok(())
    }
}

/// Checks a site route URL.
pub fn validate_url_path(url: &str) -> (r: Result<(), UrlError>)
    ensures
        r == url_path_check(url@),
{
    let cs = chars_of(url);
    if !(cs.len() > 0 && cs[0] == '/') {
        return Err(UrlError::NotRooted);
    }
    if has_unsafe_char_vec(&cs) {
        return Err(UrlError::UnsafeCharacter);
    }
    let clean = strip_char_vec(&cs, '/');
    let parts = split_char_vec(&clean, '/');
    let ghost pv = views(parts@);
    let mut i: usize = 0;
    while i < parts.len()
        invariant
            i <= parts.len(),
            pv == views(parts@),
            pv == split_char(strip_char(url@, '/'), '/'),
            cs@ == url@,
            cs@.len() > 0 && cs@[0] == '/',
            !has_unsafe_char(url@),
            forall|k: int| 0 <= k < i ==> pv[k] != cur_comp() && pv[k] != parent_comp(),
        decreases parts.len() - i,
    {
        assert(pv[i as int] == parts@[i as int]@);
        if is_dot_or_dotdot(&parts[i]) {
            assert(split_char(strip_char(url@, '/'), '/')[i as int] == pv[i as int]);
            return Err(UrlError::Traversal);
        }
        i += 1;
    }
    Ok(())
}

/// Whether `slug` may stand as a page slug.
pub open spec fn slug_check(slug: Seq<char>) -> Result<(), UrlError> {
    if trim(slug).len() == 0 {
        Err(UrlError::Empty)
    } else if slug.contains('/') {
        Err(UrlError::SlugHasSlash)
    } else if !url_segment_ok(slug) {
        Err(UrlError::UnsafeSegment)
    } else {
        Ok(())
    }
}

/// Checks a page slug.
pub fn validate_slug(slug: &str) -> (r: Result<(), UrlError>)
    ensures
        r == slug_check(slug@),
{
    let cs = chars_of(slug);
    let t = trim_vec(&cs);
    if t.len() == 0 {
        return Err(UrlError::Empty);
    }
    if contains_char(&cs, '/') {
        return Err(UrlError::SlugHasSlash);
    }
    validate_url_segment(&cs)
}

// ---------------------------------------------------------------------------
// Sections
// ---------------------------------------------------------------------------

/// The non-empty pieces of `parts`.
pub open spec fn nonempty_pieces(parts: Seq<Seq<char>>) -> Seq<Seq<char>>
    decreases parts.len(),
{
    if parts.len() == 0 {
        Seq::<Seq<char>>::empty()
    } else {
        let prev = nonempty_pieces(parts.drop_last());
        if parts.last().len() == 0 {
            prev
        } else {
            prev.push(parts.last())
        }
    }
}

/// The URL of a section's list page: `/` for `pages`, else each segment
/// slugified between slashes.
pub open spec fn section_url_of(section: Seq<char>) -> Seq<char> {
    if section == "pages"@ {
        seq!['/']
    } else {
        seq!['/'] + join(
            nonempty_pieces(split_char(section, '/')).map_values(|p: Seq<char>| slug_of(p)),
            seq!['/'],
        ) + seq!['/']
    }
}

/// The URL of a section's list page.
pub fn section_url(section: &str) -> (r: String)
    ensures
        r@ == section_url_of(section@),
{
    let cs = chars_of(section);
    if eq_str(&cs, "pages") {
        let mut s = String::new();
        push_char(&mut s, '/');
        assert(s@ =~= seq!['/']);
        return s;
    }
    let parts = split_char_vec(&cs, '/');
    let ghost pv = views(parts@);
    let mut slugs: Vec<Vec<char>> = Vec::new();
    let mut i: usize = 0;
    while i < parts.len()
        invariant
            i <= parts.len(),
            pv == views(parts@),
            views(slugs@) == nonempty_pieces(pv.take(i as int)).map_values(
                |p: Seq<char>| slug_of(p),
            ),
        decreases parts.len() - i,
    {
        assert(pv.take(i + 1).drop_last() =~= pv.take(i as int));
        assert(pv.take(i + 1).last() == parts@[i as int]@);
        if parts[i].len() > 0 {
            let ghost before = views(slugs@);
            let piece = string_of(&parts[i]);
            let sl = slugify(piece.as_str());
            let sv = chars_of(sl.as_str());
            slugs.push(sv);
            assert(views(slugs@) =~= before.push(slug_of(pv[i as int])));
            assert(views(slugs@) =~= nonempty_pieces(pv.take(i + 1)).map_values(
                |p: Seq<char>| slug_of(p),
            ));
        }
        i += 1;
    }
    assert(pv.take(parts.len() as int) =~= pv);
    let mut sep: Vec<char> = Vec::new();
    sep.push('/');
    assert(sep@ =~= seq!['/']);
    let joined = join_vecs(&slugs, &sep);
    let mut s = String::new();
    push_char(&mut s, '/');
    push_chars(&mut s, &joined);
    push_char(&mut s, '/');
    assert(s@ =~= section_url_of(section@));
    s
}

/// The parent of a section: everything before its last `/`; none for
/// `pages` or a top-level section.
pub open spec fn parent_section_of(section: Seq<char>) -> Option<Seq<char>> {
    if section == "pages"@ {
        None
    } else {
        match crate::paths::rfind_char(section, '/') {
            Some(k) => Some(section.take(k)),
            None => None,
        }
    }
}

/// The parent section of a section.
pub fn parent_section_name(section: &str) -> (r: Option<String>)
    ensures
        match r {
            Some(p) => parent_section_of(section@) == Some(p@),
            None => parent_section_of(section@) is None,
        },
{
    let cs = chars_of(section);
    if eq_str(&cs, "pages") {
        return None;
    }
    match crate::paths::rfind_char_vec(&cs, '/') {
        Some(k) => {
            proof {
                crate::paths::lemma_rfind_char(cs@, '/');
            }
            let p = crate::text::subvec(&cs, 0, k);
            assert(p@ =~= cs@.take(k as int));
            Some(string_of(&p))
        },
        None => None,
    }
}

/// The sections above `section`, outermost first: the `/`-joined prefixes
/// of its non-empty segments, except the section itself.
pub open spec fn ancestors_of(section: Seq<char>) -> Seq<Seq<char>> {
    if section == "pages"@ {
        Seq::<Seq<char>>::empty()
    } else {
        let segs = nonempty_pieces(split_char(section, '/'));
        Seq::new(segs.len(), |k: int| join(segs.take(k + 1), seq!['/'])).filter(
            |a: Seq<char>| a != section,
        )
    }
}

/// The ancestor sections of a section, outermost first.
pub fn section_ancestors(section: &str) -> (r: Vec<String>)
    ensures
        string_views(r@) == ancestors_of(section@),
{
    let cs = chars_of(section);
    if eq_str(&cs, "pages") {
        let r: Vec<String> = Vec::new();
        assert(string_views(r@) =~= ancestors_of(section@));
        return r;
    }
    let parts = split_char_vec(&cs, '/');
    let ghost pv = views(parts@);
    let mut segs: Vec<Vec<char>> = Vec::new();
    let mut i: usize = 0;
    while i < parts.len()
        invariant
            i <= parts.len(),
            pv == views(parts@),
            views(segs@) == nonempty_pieces(pv.take(i as int)),
        decreases parts.len() - i,
    {
        assert(pv.take(i + 1).drop_last() =~= pv.take(i as int));
        assert(pv.take(i + 1).last() == parts@[i as int]@);
        if parts[i].len() > 0 {
            let ghost before = views(segs@);
            segs.push(copy_chars(&parts[i]));
            assert(views(segs@) =~= before.push(pv[i as int]));
        }
        i += 1;
    }
    assert(pv.take(parts.len() as int) =~= pv);
    let ghost sv = views(segs@);
    let ghost all = Seq::new(sv.len(), |k: int| join(sv.take(k + 1), seq!['/']));
    let mut sep: Vec<char> = Vec::new();
    sep.push('/');
    assert(sep@ =~= seq!['/']);
    let mut out: Vec<String> = Vec::new();
    let mut prefix: Vec<Vec<char>> = Vec::new();
    let mut k: usize = 0;
    while k < segs.len()
        invariant
            k <= segs.len(),
            sv == views(segs@),
            sep@ == seq!['/'],
            all == Seq::new(sv.len(), |k: int| join(sv.take(k + 1), seq!['/'])),
            views(prefix@) == sv.take(k as int),
            string_views(out@) == all.take(k as int).filter(|a: Seq<char>| a != section@),
            cs@ == section@,
        decreases segs.len() - k,
    {
        let ghost before = views(prefix@);
        prefix.push(copy_chars(&segs[k]));
        assert(sv[k as int] == segs@[k as int]@);
        assert(views(prefix@) =~= before.push(sv[k as int]));
        assert(views(prefix@) =~= sv.take(k + 1));
        let cur = join_vecs(&prefix, &sep);
        assert(cur@ == all[k as int]);
        let ghost old_out = string_views(out@);
        proof {
            reveal_with_fuel(Seq::filter, 1);
            assert(all.take(k + 1).drop_last() =~= all.take(k as int));
        }
        if !crate::text::vec_eq(&cur, &cs) {
            out.push(string_of(&cur));
            assert(string_views(out@) =~= old_out.push(cur@));
        }
        k += 1;
    }
    assert(all.take(segs.len() as int) =~= all);
    out
}

// ---------------------------------------------------------------------------
// Pagination
// ---------------------------------------------------------------------------

/// The decimal digits of `n`.
pub open spec fn decimal(n: nat) -> Seq<char>
    decreases n,
{
    if n < 10 {
        seq![digit_char(n)]
    } else {
        decimal(n / 10).push(digit_char(n % 10))
    }
}

pub open spec fn digit_char(d: nat) -> char {
    ((d + 48) as u32) as char
}

/// The decimal text of `n`.
pub fn usize_to_decimal(n: usize) -> (r: Vec<char>)
    ensures
        r@ == decimal(n as nat),
    decreases n,
{
    if n < 10 {
        let mut r: Vec<char> = Vec::new();
        r.push(digit(n));
        r
    } else {
        let mut r = usize_to_decimal(n / 10);
        r.push(digit(n % 10));
        r
    }
}

pub(crate) fn digit(d: usize) -> (c: char)
    requires
        d < 10,
    ensures
        c == digit_char(d as nat),
{
    let b: u8 = (d as u8) + 48;
    b as char
}

/// The URL of page `page_number` of a paginated list whose first page is
/// `base_url`: `base_url` itself for the first page, else
/// `<base_url without trailing slashes>/page/<n>/`.
pub open spec fn paginated_url_of(base_url: Seq<char>, page_number: nat) -> Seq<char> {
    if page_number <= 1 {
        base_url
    } else {
        strip_end_char(base_url, '/') + "/page/"@ + decimal(page_number) + seq!['/']
    }
}

/// The URL of one page of a paginated list.
pub fn paginated_url(base_url: &str, page_number: usize) -> (r: String)
    ensures
        r@ == paginated_url_of(base_url@, page_number as nat),
{
    if page_number <= 1 {
        return String::from_str(base_url);
    }
    let cs = chars_of(base_url);
    let mut j: usize = cs.len();
    assert(cs@.take(j as int) =~= cs@);
    while j > 0 && cs[j - 1] == '/'
        invariant
            j <= cs.len(),
            strip_end_char(cs@, '/') == strip_end_char(cs@.take(j as int), '/'),
        decreases j,
    {
        assert(cs@.take(j as int).drop_last() =~= cs@.take(j - 1));
        j -= 1;
    }
    let base = crate::text::subvec(&cs, 0, j);
    assert(base@ =~= cs@.take(j as int));
    assert(strip_end_char(base@, '/') == base@);
    let mut s = string_of(&base);
    s.append("/page/");
    let d = usize_to_decimal(page_number);
    push_chars(&mut s, &d);
    push_char(&mut s, '/');
    s
}

// ---------------------------------------------------------------------------
// Output files
// ---------------------------------------------------------------------------

/// The page file that serves the route `url` under the output root:
/// `index.html` in the route's directory.
pub open spec fn output_path_of(out_root: Seq<char>, url: Seq<char>) -> Result<Seq<char>, UrlError> {
    match url_path_check(url) {
        Err(e) => Err(e),
        Ok(_) => {
            let clean = strip_char(url, '/');
            if clean.len() == 0 {
                Ok(join_path_of(out_root, "index.html"@))
            } else {
                Ok(join_path_of(join_path_of(out_root, clean), "index.html"@))
            }
        },
    }
}

/// The page file that serves a route.
pub fn output_path_for_url(out_root: &str, url: &str) -> (r: Result<String, UrlError>)
    ensures
        match r {
            Ok(p) => output_path_of(out_root@, url@) == Ok::<Seq<char>, UrlError>(p@),
            Err(e) => output_path_of(out_root@, url@) == Err::<Seq<char>, UrlError>(e),
        },
{
    match validate_url_path(url) {
        Err(e) => return Err(e),
        Ok(_) => {},
    }
    let cs = chars_of(url);
    let clean = strip_char_vec(&cs, '/');
    if clean.len() == 0 {
        Ok(join_path(out_root, "index.html"))
    } else {
        let dir = join_path(out_root, string_of(&clean).as_str());
        Ok(join_path(dir.as_str(), "index.html"))
    }
}

/// The site URL of a file published as is (a feed, a PDF): `/` and the
/// path without leading slashes, each segment checked.
pub open spec fn public_file_url_of(path: Seq<char>) -> Result<Seq<char>, UrlError> {
    let t = trim(path);
    if t.len() == 0 || has_unsafe_char(t) || t.last() == '/' {
        Err(UrlError::UnsafeFilePath)
    } else {
        let clean = strip_start_char(t, '/');
        if clean.len() == 0 {
            Err(UrlError::Empty)
        } else if !all_segments_ok(split_char(clean, '/')) {
            Err(UrlError::UnsafeSegment)
        } else {
            Ok(seq!['/'] + clean)
        }
    }
}

/// The site URL of a file published as is.
pub fn public_file_url(path: &str) -> (r: Result<String, UrlError>)
    ensures
        match r {
            Ok(u) => public_file_url_of(path@) == Ok::<Seq<char>, UrlError>(u@),
            Err(e) => public_file_url_of(path@) == Err::<Seq<char>, UrlError>(e),
        },
{
    let cs = chars_of(path);
    let t = trim_vec(&cs);
    if t.len() == 0 || has_unsafe_char_vec(&t) || t[t.len() - 1] == '/' {
        return Err(UrlError::UnsafeFilePath);
    }
    let clean = crate::text::trim_start_char_vec(&t, '/');
    if clean.len() == 0 {
        return Err(UrlError::Empty);
    }
    let parts = split_char_vec(&clean, '/');
    if !check_segments(&parts) {
        return Err(UrlError::UnsafeSegment);
    }
    let mut s = String::new();
    push_char(&mut s, '/');
    push_chars(&mut s, &clean);
    Ok(s)
}

/// Where a file published as is lands under the output root.
pub open spec fn public_file_path_of(out_root: Seq<char>, path: Seq<char>) -> Result<Seq<char>, UrlError> {
    match public_file_url_of(path) {
        Err(e) => Err(e),
        Ok(u) => Ok(join_path_of(out_root, strip_start_char(u, '/'))),
    }
}

/// Where a file published as is lands under the output root.
pub fn public_file_path(out_root: &str, path: &str) -> (r: Result<String, UrlError>)
    ensures
        match r {
            Ok(p) => public_file_path_of(out_root@, path@) == Ok::<Seq<char>, UrlError>(p@),
            Err(e) => public_file_path_of(out_root@, path@) == Err::<Seq<char>, UrlError>(e),
        },
{
    let u = match public_file_url(path) {
        Ok(u) => u,
        Err(e) => return Err(e),
    };
    let uc = chars_of(u.as_str());
    let clean = crate::text::trim_start_char_vec(&uc, '/');
    Ok(join_path(out_root, string_of(&clean).as_str()))
}

} // verus!
