//! Paths in their Unix text form: components, file names and extensions.
//!
//! A path is a `&str` with `/` separators. Its components follow
//! `std::path::Path::components` on Unix: a leading `/` is the root, `.`
//! counts only at the very start, empty pieces and other `.` pieces vanish.
//! A component is written as text: `/` for the root, `.` for the current
//! directory, `..` for the parent, anything else for a normal name.
use vstd::prelude::*;

use crate::text::{chars_of, copy_chars, split_char, split_char_vec, string_of, subvec, views, eq_str, lemma_split_char_nonempty};
use crate::util::{join, join_vecs};
use crate::script::string_views;

verus! {

broadcast use vstd::string::group_string_axioms;

pub open spec fn root_comp() -> Seq<char> {
    seq!['/']
}

pub open spec fn cur_comp() -> Seq<char> {
    seq!['.']
}

pub open spec fn parent_comp() -> Seq<char> {
    seq!['.', '.']
}

/// A component that names a file or directory.
pub open spec fn is_normal_comp(c: Seq<char>) -> bool {
    c != root_comp() && c != cur_comp() && c != parent_comp()
}

/// The pieces between separators that count as components after the first:
/// empty pieces and `.` vanish.
pub open spec fn keep_segments(parts: Seq<Seq<char>>) -> Seq<Seq<char>>
    decreases parts.len(),
{
    if parts.len() == 0 {
        Seq::<Seq<char>>::empty()
    } else {
        let prev = keep_segments(parts.drop_last());
        let p = parts.last();
        if p.len() == 0 || p == cur_comp() {
            prev
        } else {
            prev.push(p)
        }
    }
}

/// The components of the path `p`.
pub open spec fn components(p: Seq<char>) -> Seq<Seq<char>> {
    let parts = split_char(p, '/');
    let head = if p.len() > 0 && p[0] == '/' {
        seq![root_comp()]
    } else if parts[0] == cur_comp() {
        seq![cur_comp()]
    } else {
        Seq::<Seq<char>>::empty()
    };
    head + keep_segments(parts)
}

/// Whether `p` is a plain relative content path: each component names a
/// file or directory (no root, `.` or `..`), and no `\` occurs in it.
pub open spec fn content_path_ok(p: Seq<char>) -> bool {
    (forall|i: int| 0 <= i < components(p).len() ==> #[trigger] is_normal_comp(components(p)[i]))
        && !p.contains('\\')
}

/// The message for a path that is not a plain relative content path.
pub open spec fn invalid_content_path_message(p: Seq<char>) -> Seq<char> {
    "invalid content path: "@ + p
}

/// Checks that `path` is a plain relative content path.
pub fn validate_relative_content_path(path: &str) -> (r: Result<(), String>)
    ensures
        r is Ok <==> content_path_ok(path@),
        r matches Err(m) ==> m@ == invalid_content_path_message(path@),
{
    let p = chars_of(path);
    let cs = path_components(&p);
    let ghost cv = views(cs@);
    let mut i: usize = 0;
    while i < cs.len()
        invariant
            i <= cs.len(),
            cv == views(cs@),
            cv == components(p@),
            p@ == path@,
            forall|j: int| 0 <= j < i ==> #[trigger] is_normal_comp(cv[j]),
        decreases cs.len() - i,
    {
        let c = &cs[i];
        assert(cv[i as int] == c@);
        if is_single(c, '/') || is_single(c, '.') || is_dotdot(c) {
            assert(!is_normal_comp(components(path@)[i as int]));
            assert(!content_path_ok(path@));
            return Err(invalid_content_path(path));
        }
        i += 1;
    }
    let mut k: usize = 0;
    while k < p.len()
        invariant
            k <= p.len(),
            p@ == path@,
            forall|j: int| 0 <= j < k ==> p@[j] != '\\',
        decreases p.len() - k,
    {
        if p[k] == '\\' {
            assert(path@[k as int] == '\\');
            assert(path@.contains('\\'));
            return Err(invalid_content_path(path));
        }
        k += 1;
    }
    Ok(())
}

fn invalid_content_path(path: &str) -> (r: String)
    ensures
        r@ == invalid_content_path_message(path@),
{
    let mut m = String::from_str("invalid content path: ");
    m.append(path);
    m
}

/// Whether `v` is the single character `c`.
fn is_single(v: &Vec<char>, c: char) -> (r: bool)
    ensures
        r == (v@ == seq![c]),
{
    let r = v.len() == 1 && v[0] == c;
    proof {
        if v.len() == 1 && v[0] == c {
            assert(v@ =~= seq![c]);
        }
    }
    r
}

/// Whether `v` is `..`.
fn is_dotdot(v: &Vec<char>) -> (r: bool)
    ensures
        r == (v@ == parent_comp()),
{
    let r = v.len() == 2 && v[0] == '.' && v[1] == '.';
    proof {
        if r {
            assert(v@ =~= parent_comp());
        }
    }
    r
}

/// The components of the path `p`.
pub fn path_components(p: &Vec<char>) -> (r: Vec<Vec<char>>)
    ensures
        views(r@) == components(p@),
{
    let parts = split_char_vec(p, '/');
    proof {
        lemma_split_char_nonempty(p@, '/');
    }
    let mut out: Vec<Vec<char>> = Vec::new();
    if p.len() > 0 && p[0] == '/' {
        let mut c: Vec<char> = Vec::new();
        c.push('/');
        out.push(c);
    } else if is_single(&parts[0], '.') {
        let mut c: Vec<char> = Vec::new();
        c.push('.');
        out.push(c);
    }
    let ghost head = views(out@);
    assert(head == components(p@).take(head.len() as int)) by {
        assert(views(out@) =~= (if p@.len() > 0 && p@[0] == '/' {
            seq![root_comp()]
        } else if split_char(p@, '/')[0] == cur_comp() {
            seq![cur_comp()]
        } else {
            Seq::<Seq<char>>::empty()
        }));
    }
    let ghost ps = views(parts@);
    let mut i: usize = 0;
    while i < parts.len()
        invariant
            i <= parts.len(),
            ps == views(parts@),
            ps == split_char(p@, '/'),
            head.len() <= 1,
            components(p@) == head + keep_segments(ps),
            views(out@) == head + keep_segments(ps.take(i as int)),
        decreases parts.len() - i,
    {
        assert(ps.take(i + 1).drop_last() =~= ps.take(i as int));
        assert(ps.take(i + 1).last() == parts@[i as int]@);
        let part = &parts[i];
        if part.len() == 0 || is_single(part, '.') {
        } else {
            let ghost before = views(out@);
            out.push(copy_chars(part));
            assert(views(out@) =~= before.push(part@));
        }
        i += 1;
    }
    assert(ps.take(parts.len() as int) =~= ps);
    out
}

// ---------------------------------------------------------------------------
// Text forms
// ---------------------------------------------------------------------------

/// The components as written in a `/`-joined path: the root becomes an
/// empty name, so the joined text starts with `/`; `.` is dropped.
pub open spec fn posix_names(cs: Seq<Seq<char>>) -> Seq<Seq<char>>
    decreases cs.len(),
{
    if cs.len() == 0 {
        Seq::<Seq<char>>::empty()
    } else {
        let prev = posix_names(cs.drop_last());
        let c = cs.last();
        if c == cur_comp() {
            prev
        } else if c == root_comp() {
            prev.push(Seq::<char>::empty())
        } else {
            prev.push(c)
        }
    }
}

/// The path `p` written with `/` separators (`to_posix_path`).
pub open spec fn posix_path_of(p: Seq<char>) -> Seq<char> {
    join(posix_names(components(p)), seq!['/'])
}

/// Writes a path with `/` separators, dropping `.` components and repeated
/// separators.
pub fn to_posix_path(path: &str) -> (r: String)
    ensures
        r@ == posix_path_of(path@),
{
    let p = chars_of(path);
    let cs = path_components(&p);
    let ghost cv = views(cs@);
    let mut names: Vec<Vec<char>> = Vec::new();
    let mut i: usize = 0;
    while i < cs.len()
        invariant
            i <= cs.len(),
            cv == views(cs@),
            views(names@) == posix_names(cv.take(i as int)),
        decreases cs.len() - i,
    {
        assert(cv.take(i + 1).drop_last() =~= cv.take(i as int));
        assert(cv.take(i + 1).last() == cs@[i as int]@);
        let c = &cs[i];
        let ghost before = views(names@);
        if is_single(c, '.') {
        } else if is_single(c, '/') {
            names.push(Vec::new());
            assert(views(names@) =~= before.push(Seq::<char>::empty()));
        } else {
            names.push(copy_chars(c));
            assert(views(names@) =~= before.push(c@));
        }
        i += 1;
    }
    assert(cv.take(cs.len() as int) =~= cv);
    let mut sep: Vec<char> = Vec::new();
    sep.push('/');
    assert(sep@ =~= seq!['/']);
    let joined = join_vecs(&names, &sep);
    string_of(&joined)
}

/// The components of a canonical path as `path_parts` reports them: the
/// root as `/`, names as they are, `.` and `..` dropped.
pub open spec fn part_names(cs: Seq<Seq<char>>) -> Seq<Seq<char>>
    decreases cs.len(),
{
    if cs.len() == 0 {
        Seq::<Seq<char>>::empty()
    } else {
        let prev = part_names(cs.drop_last());
        let c = cs.last();
        if c == cur_comp() || c == parent_comp() {
            prev
        } else {
            prev.push(c)
        }
    }
}

/// The root and name components of a path.
pub fn path_parts(path: &str) -> (r: Vec<String>)
    ensures
        string_views(r@) == part_names(components(path@)),
{
    let p = chars_of(path);
    let cs = path_components(&p);
    let ghost cv = views(cs@);
    let mut out: Vec<String> = Vec::new();
    let mut i: usize = 0;
    while i < cs.len()
        invariant
            i <= cs.len(),
            cv == views(cs@),
            string_views(out@) == part_names(cv.take(i as int)),
        decreases cs.len() - i,
    {
        assert(cv.take(i + 1).drop_last() =~= cv.take(i as int));
        assert(cv.take(i + 1).last() == cs@[i as int]@);
        let c = &cs[i];
        let ghost before = string_views(out@);
        if is_single(c, '.') || is_dotdot(c) {
        } else {
            let s = string_of(c);
            out.push(s);
            assert(string_views(out@) =~= before.push(c@));
        }
        i += 1;
    }
    assert(cv.take(cs.len() as int) =~= cv);
    out
}

/// The path from directory `from` to `to`, as components to push in turn:
/// one `..` for each component of `from` past the longest common prefix,
/// then the rest of `to`.
pub open spec fn relative_components(from: Seq<Seq<char>>, to: Seq<Seq<char>>, common: int) -> Seq<
    Seq<char>,
> {
    Seq::new((from.len() - common) as nat, |_i: int| parent_comp()) + to.skip(common)
}

/// The length of the longest common prefix of `a` and `b`.
pub open spec fn is_common_prefix_len(a: Seq<Seq<char>>, b: Seq<Seq<char>>, n: int) -> bool {
    &&& 0 <= n <= a.len()
    &&& n <= b.len()
    &&& forall|k: int| 0 <= k < n ==> a[k] == b[k]
    &&& (n == a.len() || n == b.len() || a[n] != b[n])
}

/// The components reached from `base` by walking the components `rel` in
/// turn, a `..` stepping up one (lexical resolution).
pub open spec fn resolve_lexically(base: Seq<Seq<char>>, rel: Seq<Seq<char>>) -> Seq<Seq<char>>
    decreases rel.len(),
{
    if rel.len() == 0 {
        base
    } else {
        let b = resolve_lexically(base, rel.drop_last());
        if rel.last() == parent_comp() {
            if b.len() > 0 {
                b.drop_last()
            } else {
                b
            }
        } else {
            b.push(rel.last())
        }
    }
}

/// Walking `a` then `b` is walking `a + b`.
pub proof fn lemma_resolve_append(base: Seq<Seq<char>>, a: Seq<Seq<char>>, b: Seq<Seq<char>>)
    ensures
        resolve_lexically(base, a + b) == resolve_lexically(resolve_lexically(base, a), b),
    decreases b.len(),
{
    if b.len() == 0 {
        assert(a + b =~= a);
    } else {
        lemma_resolve_append(base, a, b.drop_last());
        assert((a + b).drop_last() =~= a + b.drop_last());
        assert((a + b).last() == b.last());
    }
}

/// `n` steps up from `base` drop its last `n` components.
proof fn lemma_resolve_ups(base: Seq<Seq<char>>, n: nat)
    requires
        n <= base.len(),
    ensures
        resolve_lexically(base, Seq::new(n, |_i: int| parent_comp())) == base.take(base.len() - n),
    decreases n,
{
    let ups = Seq::new(n, |_i: int| parent_comp());
    if n == 0 {
        assert(base.take(base.len() as int) =~= base);
    } else {
        lemma_resolve_ups(base, (n - 1) as nat);
        assert(ups.drop_last() =~= Seq::new((n - 1) as nat, |_i: int| parent_comp()));
        assert(base.take(base.len() - (n - 1)).drop_last() =~= base.take(base.len() - n));
    }
}

/// Walking components without `..` appends them.
proof fn lemma_resolve_plain(base: Seq<Seq<char>>, rest: Seq<Seq<char>>)
    requires
        forall|i: int| 0 <= i < rest.len() ==> #[trigger] rest[i] != parent_comp(),
    ensures
        resolve_lexically(base, rest) == base + rest,
    decreases rest.len(),
{
    if rest.len() == 0 {
        assert(base + rest =~= base);
    } else {
        let d = rest.drop_last();
        assert forall|i: int| 0 <= i < d.len() implies #[trigger] d[i] != parent_comp() by {
            assert(d[i] == rest[i]);
        }
        lemma_resolve_plain(base, d);
        assert(rest.last() == rest[rest.len() - 1]);
        assert((base + d).push(rest.last()) =~= base + rest);
    }
}

/// The relative path leads from `from` to `to`: walking it from `from`,
/// `..` stepping up, reaches `to`, when `to` (a canonical path) holds no
/// `..`.
pub proof fn lemma_relative_components_reach(from: Seq<Seq<char>>, to: Seq<Seq<char>>, n: int)
    requires
        is_common_prefix_len(from, to, n),
        forall|i: int| 0 <= i < to.len() ==> #[trigger] to[i] != parent_comp(),
    ensures
        resolve_lexically(from, relative_components(from, to, n)) == to,
{
    let ups = Seq::new((from.len() - n) as nat, |_i: int| parent_comp());
    let rest = to.skip(n);
    lemma_resolve_append(from, ups, rest);
    lemma_resolve_ups(from, (from.len() - n) as nat);
    assert(from.take(from.len() - (from.len() - n)) =~= from.take(n));
    assert forall|i: int| 0 <= i < rest.len() implies #[trigger] rest[i] != parent_comp() by {
        assert(rest[i] == to[i + n]);
    }
    lemma_resolve_plain(from.take(n), rest);
    assert(from.take(n) =~= to.take(n));
    assert(to.take(n) + rest =~= to);
}

/// The components of the relative path from one canonical directory to
/// another, given their parts (`path_parts`).
pub fn relative_parts(from: &Vec<String>, to: &Vec<String>) -> (r: Vec<String>)
    ensures
        exists|n: int|
            is_common_prefix_len(string_views(from@), string_views(to@), n) && string_views(r@)
                == relative_components(string_views(from@), string_views(to@), n),
{
    let ghost fv = string_views(from@);
    let ghost tv = string_views(to@);
    let mut common: usize = 0;
    while common < from.len() && common < to.len() && from[common] == to[common]
        invariant
            common <= from.len(),
            common <= to.len(),
            fv == string_views(from@),
            tv == string_views(to@),
            forall|k: int| 0 <= k < common ==> fv[k] == tv[k],
        decreases from.len() - common,
    {
        assert(fv[common as int] == from@[common as int]@);
        common += 1;
    }
    proof {
        if common < from.len() && common < to.len() {
            assert(fv[common as int] == from@[common as int]@);
            assert(tv[common as int] == to@[common as int]@);
        }
    }
    let mut out: Vec<String> = Vec::new();
    let mut k: usize = common;
    while k < from.len()
        invariant
            common <= k <= from.len(),
            string_views(out@) == Seq::new((k - common) as nat, |_i: int| parent_comp()),
        decreases from.len() - k,
    {
        let ghost before = string_views(out@);
        let d = String::from_str("..");
        proof {
            reveal_strlit("..");
        }
        assert(d@ =~= parent_comp());
        out.push(d);
        assert(string_views(out@) =~= before.push(parent_comp()));
        k += 1;
        assert(string_views(out@) =~= Seq::new((k - common) as nat, |_i: int| parent_comp()));
    }
    let ghost ups = string_views(out@);
    let mut k: usize = common;
    while k < to.len()
        invariant
            common <= k <= to.len(),
            tv == string_views(to@),
            string_views(out@) == ups + tv.subrange(common as int, k as int),
        decreases to.len() - k,
    {
        let ghost before = string_views(out@);
        out.push(to[k].clone());
        assert(string_views(out@) =~= before.push(tv[k as int]));
        k += 1;
        assert(string_views(out@) =~= ups + tv.subrange(common as int, k as int));
    }
    assert(tv.subrange(common as int, to.len() as int) =~= tv.skip(common as int));
    assert(is_common_prefix_len(fv, tv, common as int));
    out
}

// ---------------------------------------------------------------------------
// File names
// ---------------------------------------------------------------------------

/// The final component of `p` when it is a name (`Path::file_name`).
pub open spec fn file_name_of(p: Seq<char>) -> Option<Seq<char>> {
    let cs = components(p);
    if cs.len() > 0 && is_normal_comp(cs.last()) {
        Some(cs.last())
    } else {
        None
    }
}

/// The file name of a path.
pub fn file_name(path: &Vec<char>) -> (r: Option<Vec<char>>)
    ensures
        match r {
            Some(n) => file_name_of(path@) == Some(n@),
            None => file_name_of(path@) is None,
        },
{
    let cs = path_components(path);
    if cs.len() == 0 {
        return None;
    }
    let last = &cs[cs.len() - 1];
    assert(last@ == components(path@).last());
    proof {
        assert(root_comp() =~= seq!['/']);
    }
    if is_single(last, '/') || is_single(last, '.') || is_dotdot(last) {
        None
    } else {
        Some(copy_chars(last))
    }
}

/// The last position of `c` in `s`.
pub open spec fn rfind_char(s: Seq<char>, c: char) -> Option<int>
    decreases s.len(),
{
    if s.len() == 0 {
        None
    } else if s.last() == c {
        Some(s.len() - 1)
    } else {
        rfind_char(s.drop_last(), c)
    }
}

pub proof fn lemma_rfind_char(s: Seq<char>, c: char)
    ensures
        rfind_char(s, c) matches Some(k) ==> 0 <= k < s.len() && s[k] == c && forall|j: int|
            k < j < s.len() ==> s[j] != c,
        rfind_char(s, c) is None ==> forall|j: int| 0 <= j < s.len() ==> s[j] != c,
    decreases s.len(),
{
    if s.len() > 0 && s.last() != c {
        lemma_rfind_char(s.drop_last(), c);
        assert forall|j: int| 0 <= j < s.len() - 1 implies s[j] == s.drop_last()[j] by {}
    }
}

/// The last position of `c` in `v`.
pub fn rfind_char_vec(v: &Vec<char>, c: char) -> (r: Option<usize>)
    ensures
        match r {
            Some(k) => rfind_char(v@, c) == Some(k as int),
            None => rfind_char(v@, c) is None,
        },
{
    let mut j: usize = v.len();
    assert(v@.take(j as int) =~= v@);
    while j > 0
        invariant
            j <= v.len(),
            rfind_char(v@, c) == rfind_char(v@.take(j as int), c),
        decreases j,
    {
        assert(v@.take(j as int).drop_last() =~= v@.take(j - 1));
        if v[j - 1] == c {
            return Some(j - 1);
        }
        j -= 1;
    }
    None
}

/// The extension of a file name: what follows its last `.`, unless that
/// `.` is the first character (`Path::extension`).
pub open spec fn extension_of(name: Seq<char>) -> Option<Seq<char>> {
    match rfind_char(name, '.') {
        None => None,
        Some(k) => if k == 0 {
            None
        } else {
            Some(name.skip(k + 1))
        },
    }
}

/// Whether the file name of `p` starts with `.`.
pub open spec fn is_hidden_path(p: Seq<char>) -> bool {
    match file_name_of(p) {
        Some(n) => n.len() > 0 && n[0] == '.',
        None => false,
    }
}

/// Whether a path names a hidden file or directory.
pub fn is_hidden(path: &str) -> (r: bool)
    ensures
        r == is_hidden_path(path@),
{
    let p = chars_of(path);
    match file_name(&p) {
        Some(n) => n.len() > 0 && n[0] == '.',
        None => false,
    }
}

/// Whether the file name of `p` has the extension `typ`.
pub open spec fn is_typst_path(p: Seq<char>) -> bool {
    match file_name_of(p) {
        Some(n) => extension_of(n) == Some(seq!['t', 'y', 'p']),
        None => false,
    }
}

/// Whether a path names a Typst source file.
pub fn is_typst_file(path: &str) -> (r: bool)
    ensures
        r == is_typst_path(path@),
{
    let p = chars_of(path);
    match file_name(&p) {
        Some(n) => match rfind_char_vec(&n, '.') {
            None => false,
            Some(k) => {
                proof {
                    lemma_rfind_char(n@, '.');
                }
                if k == 0 {
                    false
                } else {
                    let ext = subvec(&n, k + 1, n.len());
                    assert(ext@ =~= n@.skip(k + 1));
                    let r = ext.len() == 3 && ext[0] == 't' && ext[1] == 'y' && ext[2] == 'p';
                    proof {
                        if r {
                            assert(ext@ =~= seq!['t', 'y', 'p']);
                        }
                    }
                    r
                }
            },
        },
        None => false,
    }
}

/// Whether the file name of `p` starts with `_` and is not `_index.typ`:
/// such files are partials that other content imports.
pub open spec fn is_partial_path(p: Seq<char>) -> bool {
    match file_name_of(p) {
        Some(n) => n.len() > 0 && n[0] == '_' && n != "_index.typ"@,
        None => false,
    }
}

/// Whether a content file is a partial rather than a page.
pub fn is_content_partial(path: &str) -> (r: bool)
    ensures
        r == is_partial_path(path@),
{
    let p = chars_of(path);
    match file_name(&p) {
        Some(n) => n.len() > 0 && n[0] == '_' && !eq_str(&n, "_index.typ"),
        None => false,
    }
}

// ---------------------------------------------------------------------------
// Sections and project directories
// ---------------------------------------------------------------------------

/// The section of a content file: the `/`-joined directory that holds it,
/// or `pages` for a file at the top of the content directory.
pub open spec fn section_of(rel: Seq<char>) -> Seq<char> {
    let cs = components(rel);
    if cs.len() == 0 || cs.last() == root_comp() || cs.drop_last().len() == 0 {
        "pages"@
    } else {
        join(posix_names(cs.drop_last()), seq!['/'])
    }
}

/// The section that a content file at `rel` belongs to.
pub fn infer_section(rel: &str) -> (r: String)
    ensures
        r@ == section_of(rel@),
{
    let p = chars_of(rel);
    let cs = path_components(&p);
    let ghost cv = views(cs@);
    if cs.len() == 0 || is_single(&cs[cs.len() - 1], '/') || cs.len() == 1 {
        proof {
            if cs.len() > 0 {
                assert(cv.last() == cs@[cs.len() - 1]@);
            }
        }
        return String::from_str("pages");
    }
    assert(cv.last() == cs@[cs.len() - 1]@);
    let ghost pc = cv.drop_last();
    let mut names: Vec<Vec<char>> = Vec::new();
    let mut i: usize = 0;
    while i + 1 < cs.len()
        invariant
            i + 1 <= cs.len(),
            cv == views(cs@),
            pc == cv.drop_last(),
            views(names@) == posix_names(pc.take(i as int)),
        decreases cs.len() - i,
    {
        assert(pc.take(i + 1).drop_last() =~= pc.take(i as int));
        assert(pc.take(i + 1).last() == cs@[i as int]@);
        let c = &cs[i];
        let ghost before = views(names@);
        if is_single(c, '.') {
        } else if is_single(c, '/') {
            names.push(Vec::new());
            assert(views(names@) =~= before.push(Seq::<char>::empty()));
        } else {
            names.push(copy_chars(c));
            assert(views(names@) =~= before.push(c@));
        }
        i += 1;
    }
    assert(pc.take(pc.len() as int) =~= pc);
    let mut sep: Vec<char> = Vec::new();
    sep.push('/');
    assert(sep@ =~= seq!['/']);
    let joined = join_vecs(&names, &sep);
    string_of(&joined)
}

/// What `validate_project_relative_dir` reports for the directory setting
/// `name` with value `path`, if anything.
pub open spec fn project_dir_problem(name: Seq<char>, path: Seq<char>) -> Option<Seq<char>> {
    if path.len() == 0 {
        Some(name + " must not be empty"@)
    } else if path[0] == '/' {
        Some(name + " must be relative to the project root: "@ + path)
    } else if components(path).contains(parent_comp()) {
        Some(name + " must not contain root, prefix, or parent components: "@ + path)
    } else {
        None
    }
}

/// Checks that a configured project directory is a relative path that
/// stays inside the project root.
pub fn validate_project_relative_dir(name: &str, path: &str) -> (r: Option<String>)
    ensures
        match r {
            Some(m) => project_dir_problem(name@, path@) == Some(m@),
            None => project_dir_problem(name@, path@) is None,
        },
{
    let p = chars_of(path);
    if p.len() == 0 {
        let mut m = String::from_str(name);
        m.append(" must not be empty");
        return Some(m);
    }
    if p[0] == '/' {
        let mut m = String::from_str(name);
        m.append(" must be relative to the project root: ");
        m.append(path);
        return Some(m);
    }
    let cs = path_components(&p);
    let mut i: usize = 0;
    while i < cs.len()
        invariant
            i <= cs.len(),
            views(cs@) == components(p@),
            p@ == path@,
            p@.len() > 0,
            p@[0] != '/',
            forall|k: int| 0 <= k < i ==> views(cs@)[k] != parent_comp(),
        decreases cs.len() - i,
    {
        assert(views(cs@)[i as int] == cs@[i as int]@);
        if is_dotdot(&cs[i]) {
            assert(components(p@).contains(parent_comp()));
            let mut m = String::from_str(name);
            m.append(" must not contain root, prefix, or parent components: ");
            m.append(path);
            return Some(m);
        }
        i += 1;
    }
    None
}


// ---------------------------------------------------------------------------
// Joining
// ---------------------------------------------------------------------------

/// `base` with `p` pushed onto it (`PathBuf::push`): an absolute `p`
/// replaces `base`; otherwise a `/` separates them unless `base` is empty
/// or already ends with one.
pub open spec fn join_path_of(base: Seq<char>, p: Seq<char>) -> Seq<char> {
    if p.len() > 0 && p[0] == '/' {
        p
    } else if base.len() == 0 {
        p
    } else if base.last() == '/' {
        base + p
    } else {
        base + seq!['/'] + p
    }
}

/// Pushes `p` onto the path `base`.
pub fn join_path(base: &str, p: &str) -> (r: String)
    ensures
        r@ == join_path_of(base@, p@),
{
    let b = chars_of(base);
    let pc = chars_of(p);
    if pc.len() > 0 && pc[0] == '/' {
        return String::from_str(p);
    }
    if b.len() == 0 {
        return String::from_str(p);
    }
    let mut s = String::from_str(base);
    if b[b.len() - 1] != '/' {
        crate::text::push_char(&mut s, '/');
    }
    s.append(p);
    s
}

/// The path made by pushing `parts` in turn onto an empty path.
pub open spec fn pushed_path(parts: Seq<Seq<char>>) -> Seq<char>
    decreases parts.len(),
{
    if parts.len() == 0 {
        Seq::<char>::empty()
    } else {
        join_path_of(pushed_path(parts.drop_last()), parts.last())
    }
}

/// The relative path from the canonical directory `from_dir` to the
/// canonical path `to`: `..` for each part of `from_dir` past their
/// longest common prefix, then the rest of `to`.
pub fn relative_path(from_dir: &str, to: &str) -> (r: String)
    ensures
        exists|n: int|
            is_common_prefix_len(part_names(components(from_dir@)), part_names(components(to@)), n)
                && r@ == pushed_path(
                relative_components(part_names(components(from_dir@)), part_names(components(to@)), n),
            ),
{
    let from_parts = path_parts(from_dir);
    let to_parts = path_parts(to);
    let rel = relative_parts(&from_parts, &to_parts);
    let ghost rv = string_views(rel@);
    let mut out = String::new();
    let mut i: usize = 0;
    while i < rel.len()
        invariant
            i <= rel.len(),
            rv == string_views(rel@),
            out@ == pushed_path(rv.take(i as int)),
        decreases rel.len() - i,
    {
        assert(rv.take(i + 1).drop_last() =~= rv.take(i as int));
        assert(rv.take(i + 1).last() == rel@[i as int]@);
        out = join_path(out.as_str(), rel[i].as_str());
        i += 1;
    }
    assert(rv.take(rel.len() as int) =~= rv);
    out
}

/// Whether a file name is that of a page wrapper a build leaves in the
/// content directory: `.typage.<...>.typ`.
pub open spec fn is_wrapper_name(name: Seq<char>) -> bool {
    crate::text::starts_with(name, ".typage."@) && crate::text::ends_with(name, ".typ"@)
}

/// Whether a file name is that of a page wrapper.
pub fn is_page_wrapper(name: &str) -> (r: bool)
    ensures
        r == is_wrapper_name(name@),
{
    let n = chars_of(name);
    let suffix = chars_of(".typ");
    crate::text::starts_with_str(&n, ".typage.") && crate::text::ends_with_vec(&n, &suffix)
}

} // verus!
