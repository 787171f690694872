//! Page addresses: the URL, slug and paths of a page source, from where it
//! lies, its metadata and the site's permalink pattern.
use vstd::prelude::*;
use vstd::utf8::{decode_utf8, encode_utf8, encode_utf8_valid_utf8, is_char_boundary_iff_not_is_continuation_byte, is_char_boundary_start_end_of_seq, is_continuation_byte, valid_utf8_split};

use crate::config::Config;
use crate::model::FrontMatter;
use crate::paths::{
    components, extension_of, file_name, file_name_of, is_normal_comp, lemma_rfind_char, path_components,
    posix_path_of, rfind_char, rfind_char_vec, root_comp, to_posix_path,
};
use crate::text::{
    chars_of, copy_chars, ends_with, ends_with_vec, eq_str, replace_all, replace_vec, split_char,
    split_char_vec, string_of, strip_char, strip_char_vec, subvec, trim, trim_vec, views,
};
use crate::url::{directory_url, normalize_directory_url, slug_check, validate_slug, UrlError};
use crate::util::{join, join_vecs};

verus! {

broadcast use vstd::string::group_string_axioms;

// ---------------------------------------------------------------------------
// Dates
// ---------------------------------------------------------------------------

/// Whether the first ten bytes of a trimmed date end on a character
/// boundary, as taking them as a string slice needs.
pub open spec fn date_slice_ok(date: Seq<char>) -> bool {
    let b = encode_utf8(trim(date));
    b.len() > 10 ==> !is_continuation_byte(b[10])
}

/// Whether the first ten bytes of a trimmed date end on a character
/// boundary.
pub fn date_slices_cleanly(date: &str) -> (r: bool)
    ensures
        r == date_slice_ok(date@),
{
    let cs = chars_of(date);
    let t = string_of(&trim_vec(&cs));
    let b = t.as_str().as_bytes();
    if b.len() > 10 {
        let x = b[10];
        !(x >= 0x80 && x < 0xC0)
    } else {
        true
    }
}

/// How many times `c` occurs in `s`.
pub open spec fn count_char(s: Seq<char>, c: char) -> nat
    decreases s.len(),
{
    if s.len() == 0 {
        0
    } else {
        count_char(s.drop_last(), c) + if s.last() == c {
            1nat
        } else {
            0nat
        }
    }
}

/// The `YYYY-MM-DD` prefix of a date: the first ten bytes of the trimmed
/// date, when its fifth and eighth bytes are `-` and it holds exactly two
/// `-`.
pub open spec fn date_prefix_of(date: Seq<char>) -> Option<Seq<char>> {
    let b = encode_utf8(trim(date));
    if b.len() >= 10 && b[4] == 45u8 && b[7] == 45u8 && count_char(decode_utf8(b.take(10)), '-')
        == 2 {
        Some(decode_utf8(b.take(10)))
    } else {
        None
    }
}

/// The year, month and day of a date with a `YYYY-MM-DD` prefix.
pub open spec fn date_parts_of(date: Option<Seq<char>>) -> Option<(Seq<char>, Seq<char>, Seq<char>)> {
    match date {
        None => None,
        Some(d) => match date_prefix_of(d) {
            None => None,
            Some(p) => {
                let parts = split_char(p, '-');
                if parts.len() == 3 {
                    Some((parts[0], parts[1], parts[2]))
                } else {
                    None
                }
            },
        },
    }
}

fn count_char_vec(v: &Vec<char>, c: char) -> (r: usize)
    ensures
        r == count_char(v@, c),
{
    let mut n: usize = 0;
    let mut i: usize = 0;
    while i < v.len()
        invariant
            i <= v.len(),
            n == count_char(v@.take(i as int), c),
            n <= i,
        decreases v.len() - i,
    {
        assert(v@.take(i + 1).drop_last() =~= v@.take(i as int));
        if v[i] == c {
            n += 1;
        }
        i += 1;
    }
    assert(v@.take(v.len() as int) =~= v@);
    n
}

/// The `YYYY-MM-DD` prefix of a date, if it has one.
pub fn simple_date_prefix(date: &str) -> (r: Option<String>)
    requires
        date_slice_ok(date@),
    ensures
        r matches Some(p) ==> date_prefix_of(date@) == Some(p@),
        r is None ==> date_prefix_of(date@) is None,
{
    let cs = chars_of(date);
    let tv = trim_vec(&cs);
    let t = string_of(&tv);
    let b = t.as_str().as_bytes();
    if b.len() < 10 {
        return None;
    }
    let mut pv: Vec<u8> = Vec::new();
    let mut i: usize = 0;
    while i < 10
        invariant
            i <= 10,
            10 <= b@.len(),
            pv@ == b@.take(i as int),
        decreases 10 - i,
    {
        pv.push(b[i]);
        i += 1;
        assert(pv@ =~= b@.take(i as int));
    }
    proof {
        encode_utf8_valid_utf8(tv@);
        if b@.len() == 10 {
            is_char_boundary_start_end_of_seq(b@);
        } else {
            is_char_boundary_iff_not_is_continuation_byte(b@, 10);
        }
        valid_utf8_split(b@, 10);
        assert(b@.subrange(0, 10) =~= b@.take(10));
    }
    if pv[4] != 45u8 || pv[7] != 45u8 {
        return None;
    }
    match crate::serve::string_from_utf8(pv) {
        None => None,
        Some(s) => {
            let sc = chars_of(s.as_str());
            if count_char_vec(&sc, '-') == 2 {
                Some(s)
            } else {
                None
            }
        },
    }
}

/// The year, month and day of a date with a `YYYY-MM-DD` prefix.
pub fn date_parts(date: Option<&str>) -> (r: Option<(String, String, String)>)
    requires
        date matches Some(d) ==> date_slice_ok(d@),
    ensures
        r matches Some((y, m, d)) ==> date_parts_of(crate::watch::opt_view(date)) == Some(
            (y@, m@, d@),
        ),
        r is None ==> date_parts_of(crate::watch::opt_view(date)) is None,
{
    let d = match date {
        Some(d) => d,
        None => return None,
    };
    let prefix = match simple_date_prefix(d) {
        Some(p) => p,
        None => return None,
    };
    let pc = chars_of(prefix.as_str());
    let parts = split_char_vec(&pc, '-');
    if parts.len() == 3 {
        assert(views(parts@)[0] == parts@[0]@);
        assert(views(parts@)[1] == parts@[1]@);
        assert(views(parts@)[2] == parts@[2]@);
        Some((string_of(&parts[0]), string_of(&parts[1]), string_of(&parts[2])))
    } else {
        None
    }
}

// ---------------------------------------------------------------------------
// Permalink patterns
// ---------------------------------------------------------------------------

/// `s` with the placeholder `key`, written `:key` or `{key}`, replaced by
/// `value`.
pub open spec fn fill_placeholder(s: Seq<char>, key: Seq<char>, value: Seq<char>) -> Seq<char> {
    replace_all(replace_all(s, seq![':'] + key, value), seq!['{'] + key + seq!['}'], value)
}

/// A permalink pattern with its placeholders filled, in this order:
/// `section`, `slug`, `path`, `filename`, `year`, `month`, `day`.
pub open spec fn fill_placeholders(
    pattern: Seq<char>,
    section: Seq<char>,
    slug: Seq<char>,
    path: Seq<char>,
    filename: Seq<char>,
    year: Seq<char>,
    month: Seq<char>,
    day: Seq<char>,
) -> Seq<char> {
    fill_placeholder(
        fill_placeholder(
            fill_placeholder(
                fill_placeholder(
                    fill_placeholder(
                        fill_placeholder(fill_placeholder(pattern, "section"@, section), "slug"@, slug),
                        "path"@,
                        path,
                    ),
                    "filename"@,
                    filename,
                ),
                "year"@,
                year,
            ),
            "month"@,
            month,
        ),
        "day"@,
        day,
    )
}

/// The URL a permalink pattern gives a page: the trimmed pattern must not
/// be empty; its placeholders are filled (the date parts are empty for a
/// date without a `YYYY-MM-DD` prefix) and the result made a directory URL.
pub open spec fn permalink_of(
    pattern: Seq<char>,
    section: Seq<char>,
    slug: Seq<char>,
    path: Seq<char>,
    filename: Seq<char>,
    date: Option<Seq<char>>,
) -> Result<Seq<char>, UrlError> {
    let p = trim(pattern);
    if p.len() == 0 {
        Err(UrlError::EmptyPermalink)
    } else {
        let (y, m, d) = match date_parts_of(date) {
            Some(t) => t,
            None => (Seq::<char>::empty(), Seq::<char>::empty(), Seq::<char>::empty()),
        };
        directory_url(fill_placeholders(p, section, slug, path, filename, y, m, d))
    }
}

fn fill_placeholder_vec(s: &Vec<char>, key: &str, value: &str) -> (r: Vec<char>)
    ensures
        r@ == fill_placeholder(s@, key@, value@),
{
    let k = chars_of(key);
    let v = chars_of(value);
    let mut p1: Vec<char> = Vec::new();
    p1.push(':');
    let mut p2: Vec<char> = Vec::new();
    p2.push('{');
    let mut i: usize = 0;
    while i < k.len()
        invariant
            i <= k.len(),
            p1@ == seq![':'] + k@.take(i as int),
            p2@ == seq!['{'] + k@.take(i as int),
        decreases k.len() - i,
    {
        p1.push(k[i]);
        p2.push(k[i]);
        i += 1;
        assert(p1@ =~= seq![':'] + k@.take(i as int));
        assert(p2@ =~= seq!['{'] + k@.take(i as int));
    }
    p2.push('}');
    assert(k@.take(k.len() as int) =~= k@);
    assert(p1@ =~= seq![':'] + key@);
    assert(p2@ =~= seq!['{'] + key@ + seq!['}']);
    let once = replace_vec(s, &p1, &v);
    replace_vec(&once, &p2, &v)
}

/// Fills a permalink pattern and makes it a directory URL.
pub fn apply_permalink_pattern(
    pattern: &str,
    section: &str,
    slug: &str,
    path: &str,
    filename: &str,
    date: Option<&str>,
) -> (r: Result<String, UrlError>)
    requires
        date matches Some(d) ==> date_slice_ok(d@),
    ensures
        match r {
            Ok(u) => permalink_of(pattern@, section@, slug@, path@, filename@, crate::watch::opt_view(date))
                == Ok::<Seq<char>, UrlError>(u@),
            Err(e) => permalink_of(pattern@, section@, slug@, path@, filename@, crate::watch::opt_view(date))
                == Err::<Seq<char>, UrlError>(e),
        },
{
    let pc = chars_of(pattern);
    let p = trim_vec(&pc);
    if p.len() == 0 {
        return Err(UrlError::EmptyPermalink);
    }
    let (y, m, d) = match date_parts(date) {
        Some(t) => t,
        None => (String::new(), String::new(), String::new()),
    };
    let s1 = fill_placeholder_vec(&p, "section", section);
    let s2 = fill_placeholder_vec(&s1, "slug", slug);
    let s3 = fill_placeholder_vec(&s2, "path", path);
    let s4 = fill_placeholder_vec(&s3, "filename", filename);
    let s5 = fill_placeholder_vec(&s4, "year", y.as_str());
    let s6 = fill_placeholder_vec(&s5, "month", m.as_str());
    let s7 = fill_placeholder_vec(&s6, "day", d.as_str());
    let out = string_of(&s7);
    normalize_directory_url(out.as_str())
}

// ---------------------------------------------------------------------------
// Page addresses
// ---------------------------------------------------------------------------

/// The file name without its extension (`Path::file_stem`): up to the
/// last `.`, unless that `.` starts the name.
pub open spec fn stem_of(name: Seq<char>) -> Seq<char> {
    match rfind_char(name, '.') {
        Some(k) => if k > 0 {
            name.take(k)
        } else {
            name
        },
        None => name,
    }
}

/// The path written from its components: `/`-separated, with a leading
/// `/` for a rooted path.
pub open spec fn rebuild_path(cs: Seq<Seq<char>>) -> Seq<char> {
    if cs.len() > 0 && cs[0] == root_comp() {
        seq!['/'] + join(cs.drop_first(), seq!['/'])
    } else {
        join(cs, seq!['/'])
    }
}

/// The source path without the extension of its file name
/// (`set_extension("")`); unchanged when it does not end in a name.
pub open spec fn no_ext_of(rel: Seq<char>) -> Seq<char> {
    let cs = components(rel);
    if cs.len() > 0 && is_normal_comp(cs.last()) {
        rebuild_path(cs.drop_last().push(stem_of(cs.last())))
    } else {
        rel
    }
}

/// The name of a page file without extension, `index` when there is none.
pub open spec fn page_filename_of(rel: Seq<char>) -> Seq<char> {
    match file_name_of(no_ext_of(rel)) {
        Some(n) => n,
        None => "index"@,
    }
}

/// A new page's path: `.typ` added when its file name has no extension.
pub open spec fn with_typ_extension_of(rel: Seq<char>) -> Seq<char> {
    match file_name_of(rel) {
        Some(n) => if extension_of(n) is None {
            no_ext_of(rel) + ".typ"@
        } else {
            rel
        },
        None => rel,
    }
}

/// Adds `.typ` to a page path whose file name has no extension.
pub fn with_typ_extension(rel: &str) -> (r: String)
    ensures
        r@ == with_typ_extension_of(rel@),
{
    let p = chars_of(rel);
    match file_name(&p) {
        Some(n) => {
            let has_ext = match rfind_char_vec(&n, '.') {
                Some(k) => k > 0,
                None => false,
            };
            if has_ext {
                String::from_str(rel)
            } else {
                let mut s = strip_extension(rel);
                s.append(".typ");
                s
            }
        },
        None => String::from_str(rel),
    }
}

/// The name of a path's parent directory, `index` when it has none.
pub open spec fn parent_name_of(p: Seq<char>) -> Seq<char> {
    let cs = components(p);
    if cs.len() >= 2 && is_normal_comp(cs[cs.len() - 2]) {
        cs[cs.len() - 2]
    } else {
        "index"@
    }
}

/// The slug a page gets from its source path: its file name, or the name
/// of its directory for an `index` file.
pub open spec fn inferred_slug_of(rel: Seq<char>) -> Seq<char> {
    if page_filename_of(rel) == "index"@ {
        parent_name_of(no_ext_of(rel))
    } else {
        page_filename_of(rel)
    }
}

/// The suffix `/index`.
pub open spec fn index_suffix() -> Seq<char> {
    seq!['/', 'i', 'n', 'd', 'e', 'x']
}

/// `s` with the suffix `p` removed as often as it ends `s`
/// (`trim_end_matches`).
pub open spec fn strip_suffix_all(s: Seq<char>, p: Seq<char>) -> Seq<char>
    decreases s.len(),
{
    if p.len() > 0 && ends_with(s, p) {
        strip_suffix_all(s.take(s.len() - p.len()), p)
    } else {
        s
    }
}

/// The URL of a page without a permalink pattern: its slug's directory
/// when the slug was given, else the directory of its source path (`/`
/// for the top `index`, the directory of an `index` file).
pub open spec fn default_url_of(path: Seq<char>, slug: Seq<char>, slug_given: bool) -> Seq<char> {
    if slug_given {
        let clean = strip_char(slug, '/');
        if clean.len() == 0 {
            seq!['/']
        } else {
            seq!['/'] + clean + seq!['/']
        }
    } else if path == "index"@ {
        seq!['/']
    } else if ends_with(path, index_suffix()) {
        seq!['/'] + strip_suffix_all(path, index_suffix()) + seq!['/']
    } else {
        seq!['/'] + path + seq!['/']
    }
}

/// The text of an optional string.
pub open spec fn opt_seq(o: Option<String>) -> Option<Seq<char>> {
    match o {
        Some(s) => Some(s@),
        None => None,
    }
}

/// The address of a page (URL, slug, path without extension, source
/// path), or why it has none: the slug (given, else inferred) must be a
/// single safe segment; the page's permalink pattern, else the site's,
/// gives the URL, else the default one; the URL must be a safe directory
/// URL.
pub open spec fn address_of(
    site_permalink: Option<Seq<char>>,
    rel: Seq<char>,
    section: Seq<char>,
    slug: Option<Seq<char>>,
    permalink: Option<Seq<char>>,
    date: Option<Seq<char>>,
) -> Result<(Seq<char>, Seq<char>, Seq<char>, Seq<char>), UrlError> {
    let path = posix_path_of(no_ext_of(rel));
    let file_path = posix_path_of(rel);
    let filename = page_filename_of(rel);
    let s = match slug {
        Some(x) => x,
        None => inferred_slug_of(rel),
    };
    match slug_check(s) {
        Err(e) => Err(e),
        Ok(_) => {
            let pattern = match permalink {
                Some(p) => Some(p),
                None => site_permalink,
            };
            let raw = match pattern {
                Some(p) => permalink_of(p, section, s, path, filename, date),
                None => Ok(default_url_of(path, s, slug is Some)),
            };
            match raw {
                Err(e) => Err(e),
                Ok(u) => match directory_url(u) {
                    Err(e) => Err(e),
                    Ok(url) => Ok((url, s, path, file_path)),
                },
            }
        },
    }
}

/// Where a page lives on the site.
#[derive(Debug, Clone, PartialEq, Eq)]
pub struct PageAddress {
    pub url: String,
    pub canonical_url: String,
    pub slug: String,
    /// The content path without extension, e.g. `posts/hello`.
    pub path: String,
    /// The source path relative to the content directory, e.g.
    /// `posts/hello.typ`.
    pub file_path: String,
}

/// The string `/`.
fn slash() -> (r: String)
    ensures
        r@ == seq!['/'],
{
    let mut s = String::new();
    crate::text::push_char(&mut s, '/');
    s
}

fn is_normal_vec(v: &Vec<char>) -> (r: bool)
    ensures
        r == is_normal_comp(v@),
{
    let one = v.len() == 1;
    let r = !(one && (v[0] == '/' || v[0] == '.')) && !(v.len() == 2 && v[0] == '.' && v[1] == '.');
    proof {
        if v.len() == 1 {
            if v[0] == '/' {
                assert(v@ =~= seq!['/']);
            }
            if v[0] == '.' {
                assert(v@ =~= seq!['.']);
            }
        }
        if v.len() == 2 && v[0] == '.' && v[1] == '.' {
            assert(v@ =~= seq!['.', '.']);
        }
    }
    r
}

pub(crate) fn stem_vec(name: &Vec<char>) -> (r: Vec<char>)
    ensures
        r@ == stem_of(name@),
{
    match rfind_char_vec(name, '.') {
        Some(k) => {
            proof {
                lemma_rfind_char(name@, '.');
            }
            if k > 0 {
                let s = subvec(name, 0, k);
                assert(s@ =~= name@.take(k as int));
                s
            } else {
                copy_chars(name)
            }
        },
        None => copy_chars(name),
    }
}

/// `s` with each `-` and `_` written as a space.
pub open spec fn spaced(s: Seq<char>) -> Seq<char> {
    s.map_values(|c: char| if c == '-' || c == '_' { ' ' } else { c })
}

/// The title of a page without one: the stem of its file name with `-`
/// and `_` as spaces, or `Untitled` when the path does not end in a name.
pub open spec fn default_title_of(path: Seq<char>) -> Seq<char> {
    match file_name_of(path) {
        Some(n) => spaced(stem_of(n)),
        None => "Untitled"@,
    }
}

/// The title a page gets from its source path when its metadata gives none.
pub fn default_title(path: &str) -> (r: String)
    ensures
        r@ == default_title_of(path@),
{
    let p = chars_of(path);
    match file_name(&p) {
        Some(n) => {
            let stem = stem_vec(&n);
            let mut out: Vec<char> = Vec::new();
            let mut i: usize = 0;
            while i < stem.len()
                invariant
                    i <= stem.len(),
                    out@ == spaced(stem@.take(i as int)),
                decreases stem.len() - i,
            {
                let c = stem[i];
                if c == '-' || c == '_' {
                    out.push(' ');
                } else {
                    out.push(c);
                }
                assert(spaced(stem@.take(i + 1)) =~= spaced(stem@.take(i as int)).push(
                    if c == '-' || c == '_' { ' ' } else { c },
                ));
                i += 1;
            }
            assert(stem@.take(stem.len() as int) =~= stem@);
            string_of(&out)
        },
        None => String::from_str("Untitled"),
    }
}

/// The source path without the extension of its file name.
pub fn strip_extension(rel: &str) -> (r: String)
    ensures
        r@ == no_ext_of(rel@),
{
    let rc = chars_of(rel);
    let cs = path_components(&rc);
    let ghost cv = views(cs@);
    let n = cs.len();
    if n == 0 || !is_normal_vec(&cs[n - 1]) {
        return String::from_str(rel);
    }
    let rooted = cs[0].len() == 1 && cs[0][0] == '/';
    proof {
        if rooted {
            assert(cs@[0]@ =~= seq!['/']);
            assert(cv[0] == cs@[0]@);
            assert(!is_normal_comp(cv[0]));
        }
    }
    let mut names: Vec<Vec<char>> = Vec::new();
    let start: usize = if rooted {
        1
    } else {
        0
    };
    let ghost target = cv.drop_last().push(stem_of(cv.last()));
    let mut i: usize = start;
    while i < n - 1
        invariant
            start <= i <= n - 1,
            n == cs.len(),
            cv == views(cs@),
            views(names@) == target.subrange(start as int, i as int),
            target == cv.drop_last().push(stem_of(cv.last())),
            target.len() == n,
        decreases n - 1 - i,
    {
        let ghost before = views(names@);
        names.push(copy_chars(&cs[i]));
        assert(target[i as int] == cv[i as int]);
        assert(cv[i as int] == cs@[i as int]@);
        assert(views(names@) =~= before.push(cs@[i as int]@));
        assert(views(names@) =~= target.subrange(start as int, i + 1));
        i += 1;
    }
    let ghost before = views(names@);
    names.push(stem_vec(&cs[n - 1]));
    assert(views(names@) =~= target.subrange(start as int, n as int));
    let mut sep: Vec<char> = Vec::new();
    sep.push('/');
    assert(sep@ =~= seq!['/']);
    let joined = join_vecs(&names, &sep);
    proof {
        if rooted {
            assert(cv[0] =~= root_comp());
            assert(target.drop_first() =~= target.subrange(1, n as int));
        } else {
            assert(target.subrange(0, n as int) =~= target);
            if n > 0 && cv[0] == root_comp() {
                assert(cs@[0]@ =~= seq!['/']);
            }
        }
    }
    if rooted {
        let mut s = slash();
        crate::text::push_chars(&mut s, &joined);
        s
    } else {
        string_of(&joined)
    }
}

/// The name of a path's parent directory, `index` when it has none.
fn parent_name(p: &str) -> (r: Vec<char>)
    ensures
        r@ == parent_name_of(p@),
{
    let pc = chars_of(p);
    let cs = path_components(&pc);
    let n = cs.len();
    if n >= 2 && is_normal_vec(&cs[n - 2]) {
        assert(views(cs@)[n - 2] == cs@[n - 2]@);
        copy_chars(&cs[n - 2])
    } else {
        chars_of("index")
    }
}

/// The URL of a page without a permalink pattern.
fn default_url(path: &Vec<char>, slug: &Vec<char>, slug_given: bool) -> (r: String)
    ensures
        r@ == default_url_of(path@, slug@, slug_given),
{
    if slug_given {
        let clean = strip_char_vec(slug, '/');
        if clean.len() == 0 {
            return slash();
        }
        let mut s = slash();
        crate::text::push_chars(&mut s, &clean);
        crate::text::push_char(&mut s, '/');
        return s;
    }
    if eq_str(path, "index") {
        return slash();
    }
    let mut suffix: Vec<char> = Vec::new();
    suffix.push('/');
    suffix.push('i');
    suffix.push('n');
    suffix.push('d');
    suffix.push('e');
    suffix.push('x');
    assert(suffix@ =~= index_suffix());
    if ends_with_vec(path, &suffix) {
        let mut cur = copy_chars(path);
        while ends_with_vec(&cur, &suffix)
            invariant
                suffix@ == index_suffix(),
                strip_suffix_all(cur@, suffix@) == strip_suffix_all(path@, suffix@),
            decreases cur.len(),
        {
            let cut = subvec(&cur, 0, cur.len() - 6);
            assert(cut@ =~= cur@.take(cur@.len() - 6));
            cur = cut;
        }
        let mut s = slash();
        crate::text::push_chars(&mut s, &cur);
        crate::text::push_char(&mut s, '/');
        return s;
    }
    let mut s = slash();
    crate::text::push_chars(&mut s, path);
    crate::text::push_char(&mut s, '/');
    s
}

/// The address of a page from its source path relative to the content
/// directory, its section and its metadata. A date used by a permalink
/// pattern must be sliceable at its tenth byte.
pub fn page_address(cfg: &Config, rel: &str, section: &str, meta: &FrontMatter) -> (r: Result<
    PageAddress,
    UrlError,
>)
    requires
        (meta.permalink is Some || cfg.permalink is Some) && meta.date is Some ==> date_slice_ok(
            meta.date->0@,
        ),
    ensures
        match r {
            Ok(a) => address_of(
                opt_seq(cfg.permalink),
                rel@,
                section@,
                opt_seq(meta.slug),
                opt_seq(meta.permalink),
                opt_seq(meta.date),
            ) == Ok::<(Seq<char>, Seq<char>, Seq<char>, Seq<char>), UrlError>(
                (a.url@, a.slug@, a.path@, a.file_path@),
            ) && a.canonical_url@ == a.url@,
            Err(e) => address_of(
                opt_seq(cfg.permalink),
                rel@,
                section@,
                opt_seq(meta.slug),
                opt_seq(meta.permalink),
                opt_seq(meta.date),
            ) == Err::<(Seq<char>, Seq<char>, Seq<char>, Seq<char>), UrlError>(e),
        },
{
    let no_ext = strip_extension(rel);
    let path = to_posix_path(no_ext.as_str());
    let file_path = to_posix_path(rel);
    let nec = chars_of(no_ext.as_str());
    let filename: Vec<char> = match file_name(&nec) {
        Some(n) => n,
        None => chars_of("index"),
    };
    let slug: String = match &meta.slug {
        Some(s) => s.clone(),
        None => {
            if eq_str(&filename, "index") {
                string_of(&parent_name(no_ext.as_str()))
            } else {
                string_of(&filename)
            }
        },
    };
    match validate_slug(slug.as_str()) {
        Err(e) => return Err(e),
        Ok(_) => {},
    }
    let pattern: Option<&str> = match &meta.permalink {
        Some(p) => Some(p.as_str()),
        None => match &cfg.permalink {
            Some(p) => Some(p.as_str()),
            None => None,
        },
    };
    let date: Option<&str> = match &meta.date {
        Some(d) => Some(d.as_str()),
        None => None,
    };
    let filename_s = string_of(&filename);
    let raw = match pattern {
        Some(p) => match apply_permalink_pattern(
            p,
            section,
            slug.as_str(),
            path.as_str(),
            filename_s.as_str(),
            date,
        ) {
            Ok(u) => u,
            Err(e) => return Err(e),
        },
        None => {
            let pv = chars_of(path.as_str());
            let sv = chars_of(slug.as_str());
            default_url(&pv, &sv, meta.slug.is_some())
        },
    };
    let url = match normalize_directory_url(raw.as_str()) {
        Ok(u) => u,
        Err(e) => return Err(e),
    };
    let canonical_url = url.clone();
    Ok(PageAddress { url, canonical_url, slug, path, file_path })
}

} // verus!
