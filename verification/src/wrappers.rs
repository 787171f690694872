//! Wrapper sources: the Typst files a build writes next to its cache, one
//! per page, that import the page's template and hold the page body with
//! its local dependency paths rewritten to be read from the wrapper's
//! directory.
use vstd::prelude::*;

use crate::deps::{fence_len, is_local_path, is_local_typst_path, line_raw_fence_len};
use crate::model::Page;
use crate::paths::{file_name, file_name_of, join_path, join_path_of, posix_path_of, to_posix_path};
use crate::permalink::{no_ext_of, strip_extension};
use crate::theme::TYPAGE_VERSION;
use crate::util::{typst_string, typst_string_of};
use crate::script::string_views;
use crate::table::{lookup_entry, pair_views, pairs_map};
use crate::text::{
    chars_of, copy_chars, strip_char, strip_char_vec, find, find_char, find_char_vec, find_vec, lemma_find_from_bounds, lines,
    lines_vec, string_of, subvec, views,
};

verus! {

broadcast use vstd::string::group_string_axioms;

/// The map that a list of moved paths describes.
pub open spec fn moved_map(moved: Seq<(String, String)>) -> Map<Seq<char>, Seq<char>> {
    pairs_map(pair_views(moved))
}

/// What a dependency path becomes in a wrapper: its entry in `moved` when
/// it is local and has one, else itself.
pub open spec fn moved_path(path: Seq<char>, moved: Map<Seq<char>, Seq<char>>) -> Seq<char> {
    if is_local_path(path) && moved.contains_key(path) {
        moved[path]
    } else {
        path
    }
}

/// The local path looked up without an entry in `moved`, if `path` is one.
pub open spec fn path_misses(path: Seq<char>, moved: Map<Seq<char>, Seq<char>>) -> Seq<Seq<char>> {
    if is_local_path(path) && !moved.contains_key(path) {
        seq![path]
    } else {
        Seq::<Seq<char>>::empty()
    }
}

/// Rewrites the paths that follow `marker` in `s`: after each occurrence of
/// the marker, the text up to the next double quote is kept, and the text
/// from there to the following double quote is a path, replaced by
/// `moved_path`. Also gives the local paths that had no entry.
pub open spec fn marker_rewrite(s: Seq<char>, marker: Seq<char>, moved: Map<Seq<char>, Seq<char>>) -> (
    Seq<char>,
    Seq<Seq<char>>,
)
    decreases s.len(),
{
    if marker.len() == 0 {
        (s, Seq::<Seq<char>>::empty())
    } else {
        match find(s, marker) {
            None => (s, Seq::<Seq<char>>::empty()),
            Some(k) => {
                proof {
                    lemma_find_from_bounds(s, marker, 0);
                }
                let cut = k + marker.len();
                let after = s.skip(cut);
                match find_char(after, '"') {
                    None => {
                        let (o, b) = marker_rewrite(after, marker, moved);
                        (s.take(cut) + o, b)
                    },
                    Some(q) => {
                        proof {
                            lemma_find_from_bounds(after, seq!['"'], 0);
                        }
                        let quoted = after.skip(q + 1);
                        match find_char(quoted, '"') {
                            None => {
                                let (o, b) = marker_rewrite(quoted, marker, moved);
                                (s.take(cut) + after.take(q + 1) + o, b)
                            },
                            Some(e) => {
                                proof {
                                    lemma_find_from_bounds(quoted, seq!['"'], 0);
                                }
                                let path = quoted.take(e);
                                let (o, b) = marker_rewrite(quoted.skip(e + 1), marker, moved);
                                (
                                    s.take(cut) + after.take(q + 1) + moved_path(path, moved)
                                        + seq!['"'] + o,
                                    path_misses(path, moved) + b,
                                )
                            },
                        }
                    },
                }
            },
        }
    }
}

/// Rewrites the paths of one line after `#import`, `#include`, `read(` and
/// `image(`, in that order, each pass reading the text the one before it
/// wrote.
pub open spec fn line_rewrite(l: Seq<char>, moved: Map<Seq<char>, Seq<char>>) -> (
    Seq<char>,
    Seq<Seq<char>>,
) {
    let (a, ma) = marker_rewrite(l, "#import"@, moved);
    let (b, mb) = marker_rewrite(a, "#include"@, moved);
    let (c, mc) = marker_rewrite(b, "read("@, moved);
    let (d, md) = marker_rewrite(c, "image("@, moved);
    (d, ma + mb + mc + md)
}

/// The rewritten text of `ls`, each line ended by a newline, the local paths
/// without an entry, and the raw fence open after them. Fence lines and the
/// lines of raw blocks are kept as they are.
pub open spec fn body_rewrite(ls: Seq<Seq<char>>, moved: Map<Seq<char>, Seq<char>>) -> (
    Seq<char>,
    Seq<Seq<char>>,
    Option<nat>,
)
    decreases ls.len(),
{
    if ls.len() == 0 {
        (Seq::<char>::empty(), Seq::<Seq<char>>::empty(), None)
    } else {
        let (o, b, open) = body_rewrite(ls.drop_last(), moved);
        let l = ls.last();
        match fence_len(l) {
            Some(f) => {
                let next = match open {
                    Some(n) => if f >= n {
                        None
                    } else {
                        open
                    },
                    None => Some(f),
                };
                (o + l + seq!['\n'], b, next)
            },
            None => if open is Some {
                (o + l + seq!['\n'], b, open)
            } else {
                let (lo, lb) = line_rewrite(l, moved);
                (o + lo + seq!['\n'], b + lb, open)
            },
        }
    }
}

/// The lines of `ls`, each ended by a newline.
pub open spec fn terminated_lines(ls: Seq<Seq<char>>) -> Seq<char>
    decreases ls.len(),
{
    if ls.len() == 0 {
        Seq::<char>::empty()
    } else {
        terminated_lines(ls.drop_last()) + ls.last() + seq!['\n']
    }
}

/// With no moved paths, a marker pass writes back the text it read.
pub proof fn lemma_marker_rewrite_unmoved(s: Seq<char>, marker: Seq<char>)
    ensures
        marker_rewrite(s, marker, Map::empty()).0 == s,
    decreases s.len(),
{
    let mv = Map::<Seq<char>, Seq<char>>::empty();
    if marker.len() > 0 {
        match find(s, marker) {
            None => {},
            Some(k) => {
                lemma_find_from_bounds(s, marker, 0);
                let cut = k + marker.len();
                let after = s.skip(cut);
                match find_char(after, '"') {
                    None => {
                        lemma_marker_rewrite_unmoved(after, marker);
                        assert(s.take(cut) + after =~= s);
                    },
                    Some(q) => {
                        lemma_find_from_bounds(after, seq!['"'], 0);
                        let quoted = after.skip(q + 1);
                        match find_char(quoted, '"') {
                            None => {
                                lemma_marker_rewrite_unmoved(quoted, marker);
                                assert(s.take(cut) + after.take(q + 1) + quoted =~= s);
                            },
                            Some(e) => {
                                lemma_find_from_bounds(quoted, seq!['"'], 0);
                                let rest = quoted.skip(e + 1);
                                lemma_marker_rewrite_unmoved(rest, marker);
                                assert(quoted.subrange(e, e + 1) =~= seq!['"']);
                                assert(quoted.subrange(e, e + 1)[0] == quoted[e]);
                                assert(quoted.take(e) + seq!['"'] + rest =~= quoted);
                                assert(s.take(cut) + after.take(q + 1) + quoted.take(e) + seq!['"']
                                    + rest =~= s);
                            },
                        }
                    },
                }
            },
        }
    }
}

/// With no moved paths, rewriting a body only ends each line with a newline.
pub proof fn lemma_body_rewrite_unmoved(ls: Seq<Seq<char>>)
    ensures
        body_rewrite(ls, Map::empty()).0 == terminated_lines(ls),
    decreases ls.len(),
{
    if ls.len() > 0 {
        lemma_body_rewrite_unmoved(ls.drop_last());
        let l = ls.last();
        let mv = Map::<Seq<char>, Seq<char>>::empty();
        lemma_marker_rewrite_unmoved(l, "#import"@);
        let a = marker_rewrite(l, "#import"@, mv).0;
        lemma_marker_rewrite_unmoved(a, "#include"@);
        let b = marker_rewrite(a, "#include"@, mv).0;
        lemma_marker_rewrite_unmoved(b, "read("@);
        let c = marker_rewrite(b, "read("@, mv).0;
        lemma_marker_rewrite_unmoved(c, "image("@);
    }
}

/// The path that replaces `path`, and whether it was a local path without
/// an entry.
fn moved_path_vec(path: &Vec<char>, moved: &Vec<(String, String)>) -> (r: (Vec<char>, bool))
    ensures
        r.0@ == moved_path(path@, moved_map(moved@)),
        r.1 == (is_local_path(path@) && !moved_map(moved@).contains_key(path@)),
{
    let ps = string_of(path);
    if !is_local_typst_path(ps.as_str()) {
        return (copy_chars(path), false);
    }
    match lookup_entry(moved, ps.as_str()) {
        Some(target) => (chars_of(target.as_str()), false),
        None => (copy_chars(path), true),
    }
}

/// Rewrites the paths that follow `marker` in `line`, appending the local
/// paths without an entry to `misses`.
fn rewrite_marker_vec(
    line: &Vec<char>,
    marker: &str,
    moved: &Vec<(String, String)>,
    misses: &mut Vec<String>,
) -> (r: Vec<char>)
    ensures
        r@ == marker_rewrite(line@, marker@, moved_map(moved@)).0,
        string_views(final(misses)@) == string_views(old(misses)@) + marker_rewrite(
            line@,
            marker@,
            moved_map(moved@),
        ).1,
{
    let ghost mv = moved_map(moved@);
    let m = chars_of(marker);
    if m.len() == 0 {
        assert(string_views(misses@) =~= string_views(misses@) + Seq::<Seq<char>>::empty());
        return copy_chars(line);
    }
    let ghost m0 = string_views(misses@);
    let mut out: Vec<char> = Vec::new();
    let mut rest = copy_chars(line);
    loop
        invariant
            m@ == marker@,
            m@.len() > 0,
            m0 == string_views(old(misses)@),
            mv == moved_map(moved@),
            out@ + marker_rewrite(rest@, m@, mv).0 == marker_rewrite(line@, m@, mv).0,
            string_views(misses@) + marker_rewrite(rest@, m@, mv).1 == m0 + marker_rewrite(
                line@,
                m@,
                mv,
            ).1,
        decreases rest.len(),
    {
        let ghost r0 = rest@;
        let ghost o0 = out@;
        let ghost s0 = string_views(misses@);
        match find_vec(&rest, &m) {
            None => {
                push_all(&mut out, &rest);
                assert(marker_rewrite(rest@, m@, mv).1 =~= Seq::<Seq<char>>::empty());
                assert(string_views(misses@) =~= string_views(misses@) + Seq::<Seq<char>>::empty());
                assert(string_views(misses@) == m0 + marker_rewrite(line@, m@, mv).1);
                return out;
            },
            Some(k) => {
                proof {
                    lemma_find_from_bounds(rest@, m@, 0);
                }
                let cut = k + m.len();
                let after = subvec(&rest, cut, rest.len());
                assert(after@ =~= r0.skip(cut as int));
                let head = subvec(&rest, 0, cut);
                assert(head@ =~= r0.take(cut as int));
                match find_char_vec(&after, '"') {
                    None => {
                        push_all(&mut out, &head);
                        assert(out@ =~= o0 + r0.take(cut as int));
                        rest = after;
                    },
                    Some(q) => {
                        proof {
                            lemma_find_from_bounds(after@, seq!['"'], 0);
                        }
                        let opening = subvec(&after, 0, q + 1);
                        assert(opening@ =~= after@.take(q + 1));
                        let quoted = subvec(&after, q + 1, after.len());
                        assert(quoted@ =~= after@.skip(q + 1));
                        push_all(&mut out, &head);
                        push_all(&mut out, &opening);
                        match find_char_vec(&quoted, '"') {
                            None => {
                                assert(out@ =~= o0 + (r0.take(cut as int) + after@.take(q + 1)));
                                rest = quoted;
                            },
                            Some(e) => {
                                proof {
                                    lemma_find_from_bounds(quoted@, seq!['"'], 0);
                                }
                                let path = subvec(&quoted, 0, e);
                                assert(path@ =~= quoted@.take(e as int));
                                let (target, missing) = moved_path_vec(&path, moved);
                                push_all(&mut out, &target);
                                out.push('"');
                                assert(out@ =~= o0 + (r0.take(cut as int) + after@.take(q + 1)
                                    + moved_path(path@, mv) + seq!['"']));
                                if missing {
                                    misses.push(string_of(&path));
                                    assert(string_views(misses@) =~= s0 + path_misses(path@, mv));
                                } else {
                                    assert(string_views(misses@) =~= s0 + path_misses(path@, mv));
                                }
                                let tail = subvec(&quoted, e + 1, quoted.len());
                                assert(tail@ =~= quoted@.skip(e + 1));
                                rest = tail;
                            },
                        }
                    },
                }
            },
        }
    }
}

/// Rewrites the dependency paths of one line, marker by marker.
fn rewrite_dependency_line(line: &Vec<char>, moved: &Vec<(String, String)>, misses: &mut Vec<
    String,
>) -> (r: Vec<char>)
    ensures
        r@ == line_rewrite(line@, moved_map(moved@)).0,
        string_views(final(misses)@) == string_views(old(misses)@) + line_rewrite(
            line@,
            moved_map(moved@),
        ).1,
{
    let ghost mv = moved_map(moved@);
    let ghost m0 = string_views(misses@);
    let a = rewrite_marker_vec(line, "#import", moved, misses);
    let b = rewrite_marker_vec(&a, "#include", moved, misses);
    let c = rewrite_marker_vec(&b, "read(", moved, misses);
    let d = rewrite_marker_vec(&c, "image(", moved, misses);
    proof {
        let ma = marker_rewrite(line@, "#import"@, mv).1;
        let mb = marker_rewrite(a@, "#include"@, mv).1;
        let mc = marker_rewrite(b@, "read("@, mv).1;
        let md = marker_rewrite(c@, "image("@, mv).1;
        assert(string_views(misses@) =~= m0 + (ma + mb + mc + md));
    }
    d
}

/// Rewrites the local dependency paths of a page body for a wrapper file
/// that lives elsewhere. `moved` gives, for each local path as written,
/// the path that reaches the same file from the wrapper's directory; a
/// local path without an entry (one whose file does not exist) is kept.
/// Raw blocks are left alone. The local paths looked up without an entry
/// are appended to `unresolved`.
pub fn rewrite_local_dependency_paths(
    body: &str,
    moved: &Vec<(String, String)>,
    unresolved: &mut Vec<String>,
) -> (r: String)
    ensures
        r@ == body_rewrite(lines(body@), moved_map(moved@)).0,
        string_views(final(unresolved)@) == string_views(old(unresolved)@) + body_rewrite(
            lines(body@),
            moved_map(moved@),
        ).1,
{
    let cs = chars_of(body);
    let ls = lines_vec(&cs);
    let ghost lv = views(ls@);
    let ghost mv = moved_map(moved@);
    let ghost u0 = string_views(unresolved@);
    let mut out: Vec<char> = Vec::new();
    let mut open: Option<usize> = None;
    let mut i: usize = 0;
    assert(u0 =~= u0 + Seq::<Seq<char>>::empty());
    while i < ls.len()
        invariant
            i <= ls.len(),
            lv == views(ls@),
            lv == lines(body@),
            mv == moved_map(moved@),
            u0 == string_views(old(unresolved)@),
            body_rewrite(lv.take(i as int), mv).0 == out@,
            u0 + body_rewrite(lv.take(i as int), mv).1 == string_views(unresolved@),
            body_rewrite(lv.take(i as int), mv).2 == match open {
                Some(n) => Some(n as nat),
                None => None,
            },
        decreases ls.len() - i,
    {
        assert(lv.take(i + 1).drop_last() =~= lv.take(i as int));
        assert(lv.take(i + 1).last() == ls@[i as int]@);
        let line = &ls[i];
        let ghost o0 = out@;
        let ghost s0 = string_views(unresolved@);
        match line_raw_fence_len(line) {
            Some(f) => {
                match open {
                    Some(n) => {
                        if f >= n {
                            open = None;
                        }
                    },
                    None => {
                        open = Some(f);
                    },
                }
                push_all(&mut out, line);
                out.push('\n');
                assert(out@ =~= o0 + line@ + seq!['\n']);
            },
            None => {
                if open.is_some() {
                    push_all(&mut out, line);
                    out.push('\n');
                    assert(out@ =~= o0 + line@ + seq!['\n']);
                } else {
                    let lo = rewrite_dependency_line(line, moved, unresolved);
                    push_all(&mut out, &lo);
                    out.push('\n');
                    assert(out@ =~= o0 + lo@ + seq!['\n']);
                    assert(string_views(unresolved@) =~= u0 + (body_rewrite(lv.take(i as int), mv).1
                        + line_rewrite(line@, mv).1));
                }
            },
        }
        i += 1;
    }
    assert(lv.take(ls.len() as int) =~= lv);
    string_of(&out)
}

/// Where the wrapper of the page at `rel` lies under `wrappers_root`: the
/// joined path with its file name's extension replaced by `.wrapper.typ`,
/// or `page.wrapper.typ` pushed onto it when it does not end in a name.
pub open spec fn wrapper_path_of(wrappers_root: Seq<char>, rel: Seq<char>) -> Seq<char> {
    let joined = join_path_of(wrappers_root, rel);
    if file_name_of(joined) is Some {
        no_ext_of(joined) + ".wrapper.typ"@
    } else {
        join_path_of(joined, "page.wrapper.typ"@)
    }
}

/// The path of the wrapper file for `page` under `wrappers_root`.
pub fn page_wrapper_path(wrappers_root: &str, page: &Page) -> (r: String)
    ensures
        r@ == wrapper_path_of(wrappers_root@, page.rel@),
{
    let joined = join_path(wrappers_root, page.rel.as_str());
    let jc = chars_of(joined.as_str());
    match file_name(&jc) {
        Some(_) => {
            let mut s = strip_extension(joined.as_str());
            s.append(".wrapper.typ");
            s
        },
        None => join_path(joined.as_str(), "page.wrapper.typ"),
    }
}

/// The opening lines every wrapper shares: the import of the template's
/// `render` (by its path from the wrapper, `/`-separated) and of the
/// `typage` data package.
pub open spec fn wrapper_imports(template_rel: Seq<char>) -> Seq<char> {
    "#import "@ + typst_string_of(posix_path_of(template_rel)) + ": render\n#import \"@local/typage:"@
        + TYPAGE_VERSION@ + "\" as typage\n\n"@
}

/// The wrapper text of a generated list page.
pub open spec fn generated_wrapper_of(template_rel: Seq<char>) -> Seq<char> {
    wrapper_imports(template_rel)
        + "#show: render.with(site: typage.site, page: typage.current, pages: typage.pages, taxonomies: typage.taxonomies)\n\n"@
}

fn wrapper_imports_text(template_rel: &str) -> (r: String)
    ensures
        r@ == wrapper_imports(template_rel@),
{
    let mut s = String::from_str("#import ");
    let posix = to_posix_path(template_rel);
    s.append(typst_string(posix.as_str()).as_str());
    s.append(": render\n#import \"@local/typage:");
    s.append(TYPAGE_VERSION);
    s.append("\" as typage\n\n");
    s
}

/// The source of the wrapper that renders a generated list page with the
/// site's list template; `template_rel` is the template's path from the
/// wrapper's directory.
pub fn generated_wrapper_source(template_rel: &str) -> (r: String)
    ensures
        r@ == generated_wrapper_of(template_rel@),
{
    let mut s = wrapper_imports_text(template_rel);
    s.append(
        "#show: render.with(site: typage.site, page: typage.current, pages: typage.pages, taxonomies: typage.taxonomies)\n\n",
    );
    s
}

/// The wrapper text of a page: the imports, the page's own dictionary bound
/// as `__typage_current`, the checks of its metadata, the `render` show
/// rule, and the rewritten body.
pub open spec fn page_wrapper_of(
    template_rel: Seq<char>,
    current: Seq<char>,
    validation: Seq<char>,
    body: Seq<char>,
) -> Seq<char> {
    wrapper_imports(template_rel) + "#let __typage_current = "@ + current + "\n"@ + validation
        + "#show: render.with(site: typage.site, page: __typage_current, pages: typage.pages, taxonomies: typage.taxonomies)\n\n"@
        + body + "\n"@
}

/// The source of the wrapper that renders a page: `template_rel` is the
/// template's path from the wrapper's directory, `current` the page's
/// Typst dictionary, `validation` the Typst checks of its metadata and
/// `body` its rewritten body.
pub fn page_wrapper_source(template_rel: &str, current: &str, validation: &str, body: &str) -> (r:
    String)
    ensures
        r@ == page_wrapper_of(template_rel@, current@, validation@, body@),
{
    let mut s = wrapper_imports_text(template_rel);
    s.append("#let __typage_current = ");
    s.append(current);
    s.append("\n");
    s.append(validation);
    s.append(
        "#show: render.with(site: typage.site, page: __typage_current, pages: typage.pages, taxonomies: typage.taxonomies)\n\n",
    );
    s.append(body);
    s.append("\n");
    s
}

/// Where a bundle writes the page at `url`: its directory's `index.html`
/// (the URL without leading and trailing `/`, then `/index.html`).
pub open spec fn bundle_html_path_of(url: Seq<char>) -> Seq<char> {
    let p = strip_char(url, '/');
    if p.len() == 0 {
        "index.html"@
    } else {
        p + "/index.html"@
    }
}

/// The file a bundle writes for the page at `url`.
pub fn bundle_html_path(url: &str) -> (r: String)
    ensures
        r@ == bundle_html_path_of(url@),
{
    let p = strip_char_vec(&chars_of(url), '/');
    if p.len() == 0 {
        String::from_str("index.html")
    } else {
        let mut s = string_of(&p);
        s.append("/index.html");
        s
    }
}

/// A page of a bundle: its template's path from the bundle, its URL, its
/// Typst dictionary, the checks of its metadata and its rewritten body.
pub struct BundlePage {
    pub template_rel: String,
    pub url: String,
    pub current: String,
    pub validation: String,
    pub body: String,
}

/// A generated list page of a bundle: the list template's path from the
/// bundle, its URL and its Typst dictionary.
pub struct BundleGenerated {
    pub template_rel: String,
    pub url: String,
    pub current: String,
}

/// The lines `ls`, each indented by two spaces and ended by a newline.
pub open spec fn indented_lines(ls: Seq<Seq<char>>) -> Seq<char>
    decreases ls.len(),
{
    if ls.len() == 0 {
        Seq::<char>::empty()
    } else {
        indented_lines(ls.drop_last()) + "  "@ + ls.last() + seq!['\n']
    }
}

/// The opening of a bundle document: the file it writes, the import of
/// its template's `render`, and the start of its `current` binding.
pub open spec fn document_head(url: Seq<char>, template_rel: Seq<char>) -> Seq<char> {
    "#document("@ + typst_string_of(bundle_html_path_of(url)) + ")[\n  #import "@
        + typst_string_of(posix_path_of(template_rel)) + ": render\n  #let current = "@
}

/// The lines that bind `asset` and apply the template in a bundle document.
pub open spec fn document_render() -> Seq<char> {
    "  #let asset = path => if site.base_url == \"\" { path } else { site.base_url + path }\n  #show: render.with(site: site, page: current, pages: pages, taxonomies: taxonomies)\n"@
}

/// The bundle document of a page.
pub open spec fn page_document(p: BundlePage) -> Seq<char> {
    document_head(p.url@, p.template_rel@) + p.current@ + "\n  #let __typage_current = current\n"@
        + indented_lines(lines(p.validation@)) + document_render() + p.body@ + "\n]\n"@
}

/// The bundle document of a generated list page.
pub open spec fn generated_document(g: BundleGenerated) -> Seq<char> {
    document_head(g.url@, g.template_rel@) + g.current@ + "\n"@ + document_render() + "]\n"@
}

/// The line that puts the static file `source` (its path from the bundle)
/// into the bundle at `rel` (its path under the static directory).
pub open spec fn asset_line(rel: Seq<char>, source: Seq<char>) -> Seq<char> {
    "#asset("@ + typst_string_of(crate::links::slashed(rel)) + ", read("@ + typst_string_of(
        posix_path_of(source),
    ) + ", encoding: none))\n"@
}

pub open spec fn page_documents(ps: Seq<BundlePage>) -> Seq<char>
    decreases ps.len(),
{
    if ps.len() == 0 {
        Seq::<char>::empty()
    } else {
        page_documents(ps.drop_last()) + page_document(ps.last())
    }
}

pub open spec fn generated_documents(gs: Seq<BundleGenerated>) -> Seq<char>
    decreases gs.len(),
{
    if gs.len() == 0 {
        Seq::<char>::empty()
    } else {
        generated_documents(gs.drop_last()) + generated_document(gs.last())
    }
}

pub open spec fn asset_lines(assets: Seq<(String, String)>) -> Seq<char>
    decreases assets.len(),
{
    if assets.len() == 0 {
        Seq::<char>::empty()
    } else {
        asset_lines(assets.drop_last()) + asset_line(assets.last().0@, assets.last().1@)
    }
}

/// The source of a Typst bundle of the site: a header comment, the import
/// of the site data (at `data_rel` from the bundle), one document per page
/// then per generated page, in order, and one asset line per static file.
pub open spec fn bundle_source_of(
    data_rel: Seq<char>,
    pages: Seq<BundlePage>,
    generated: Seq<BundleGenerated>,
    assets: Seq<(String, String)>,
) -> Seq<char> {
    "// Generated by typage. Experimental Typst bundle export.\n#import "@ + typst_string_of(
        posix_path_of(data_rel),
    ) + ": site, pages, taxonomies\n"@ + page_documents(pages) + generated_documents(generated)
        + asset_lines(assets)
}

fn push_document_head(out: &mut String, url: &str, template_rel: &str)
    ensures
        final(out)@ == old(out)@ + document_head(url@, template_rel@),
{
    out.append("#document(");
    out.append(typst_string(bundle_html_path(url).as_str()).as_str());
    out.append(")[\n  #import ");
    out.append(typst_string(to_posix_path(template_rel).as_str()).as_str());
    out.append(": render\n  #let current = ");
}

fn push_document_render(out: &mut String)
    ensures
        final(out)@ == old(out)@ + document_render(),
{
    out.append(
        "  #let asset = path => if site.base_url == \"\" { path } else { site.base_url + path }\n  #show: render.with(site: site, page: current, pages: pages, taxonomies: taxonomies)\n",
    );
}

fn push_indented_lines(out: &mut String, text: &str)
    ensures
        final(out)@ == old(out)@ + indented_lines(lines(text@)),
{
    let ls = lines_vec(&chars_of(text));
    let ghost lv = views(ls@);
    let ghost o0 = out@;
    let mut i: usize = 0;
    while i < ls.len()
        invariant
            i <= ls.len(),
            lv == views(ls@),
            lv == lines(text@),
            out@ == o0 + indented_lines(lv.take(i as int)),
        decreases ls.len() - i,
    {
        assert(lv.take(i + 1).drop_last() =~= lv.take(i as int));
        assert(lv.take(i + 1).last() == ls@[i as int]@);
        out.append("  ");
        crate::text::push_chars(out, &ls[i]);
        crate::text::push_char(out, '\n');
        i += 1;
    }
    assert(lv.take(ls.len() as int) =~= lv);
}

/// The source of a Typst bundle of the site.
pub fn bundle_source(
    data_rel: &str,
    pages: &Vec<BundlePage>,
    generated: &Vec<BundleGenerated>,
    assets: &Vec<(String, String)>,
) -> (r: String)
    ensures
        r@ == bundle_source_of(data_rel@, pages@, generated@, assets@),
{
    let mut out = String::from_str("// Generated by typage. Experimental Typst bundle export.\n#import ");
    out.append(typst_string(to_posix_path(data_rel).as_str()).as_str());
    out.append(": site, pages, taxonomies\n");
    let ghost head = out@;
    let mut i: usize = 0;
    while i < pages.len()
        invariant
            i <= pages.len(),
            out@ == head + page_documents(pages@.take(i as int)),
        decreases pages.len() - i,
    {
        assert(pages@.take(i + 1).drop_last() =~= pages@.take(i as int));
        assert(pages@.take(i + 1).last() == pages@[i as int]);
        let p = &pages[i];
        let ghost before = out@;
        push_document_head(&mut out, p.url.as_str(), p.template_rel.as_str());
        out.append(p.current.as_str());
        out.append("\n  #let __typage_current = current\n");
        push_indented_lines(&mut out, p.validation.as_str());
        push_document_render(&mut out);
        out.append(p.body.as_str());
        out.append("\n]\n");
        assert(out@ =~= before + page_document(*p));
        i += 1;
    }
    assert(pages@.take(pages.len() as int) =~= pages@);
    let ghost mid = out@;
    let mut k: usize = 0;
    while k < generated.len()
        invariant
            k <= generated.len(),
            out@ == mid + generated_documents(generated@.take(k as int)),
        decreases generated.len() - k,
    {
        assert(generated@.take(k + 1).drop_last() =~= generated@.take(k as int));
        assert(generated@.take(k + 1).last() == generated@[k as int]);
        let g = &generated[k];
        let ghost before = out@;
        push_document_head(&mut out, g.url.as_str(), g.template_rel.as_str());
        out.append(g.current.as_str());
        out.append("\n");
        push_document_render(&mut out);
        out.append("]\n");
        assert(out@ =~= before + generated_document(*g));
        k += 1;
    }
    assert(generated@.take(generated.len() as int) =~= generated@);
    let ghost last = out@;
    let mut bs: Vec<char> = Vec::new();
    bs.push('\\');
    let mut fs: Vec<char> = Vec::new();
    fs.push('/');
    assert(bs@ =~= seq!['\\']);
    assert(fs@ =~= seq!['/']);
    let mut j: usize = 0;
    while j < assets.len()
        invariant
            j <= assets.len(),
            bs@ == seq!['\\'],
            fs@ == seq!['/'],
            out@ == last + asset_lines(assets@.take(j as int)),
        decreases assets.len() - j,
    {
        assert(assets@.take(j + 1).drop_last() =~= assets@.take(j as int));
        assert(assets@.take(j + 1).last() == assets@[j as int]);
        let ghost before = out@;
        let rel = string_of(&crate::text::replace_vec(&chars_of(assets[j].0.as_str()), &bs, &fs));
        out.append("#asset(");
        out.append(typst_string(rel.as_str()).as_str());
        out.append(", read(");
        out.append(typst_string(to_posix_path(assets[j].1.as_str()).as_str()).as_str());
        out.append(", encoding: none))\n");
        assert(out@ =~= before + asset_line(assets@[j as int].0@, assets@[j as int].1@));
        j += 1;
    }
    assert(assets@.take(assets.len() as int) =~= assets@);
    out
}

/// Appends the characters of `v` to `out`.
fn push_all(out: &mut Vec<char>, v: &Vec<char>)
    ensures
        final(out)@ == old(out)@ + v@,
{
    let ghost o0 = out@;
    let mut i: usize = 0;
    while i < v.len()
        invariant
            i <= v.len(),
            out@ == o0 + v@.take(i as int),
        decreases v.len() - i,
    {
        out.push(v[i]);
        assert(v@.take(i + 1) =~= v@.take(i as int).push(v@[i as int]));
        i += 1;
    }
    assert(v@.take(v.len() as int) =~= v@);
}

} // verus!
