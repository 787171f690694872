//! Local dependencies of Typst sources: the files that `#import`,
//! `#include`, `read(..)` and `image(..)` name, outside raw text.
use vstd::prelude::*;


use crate::paths::{join_path, join_path_of};
use crate::script::string_views;
use crate::text::{
    chars_of, find, find_char, matches_at, find_char_vec, find_vec, lemma_find_from_bounds, lines, lines_vec,
    starts_with, starts_with_str, string_of, subvec, trim_start, trim_start_vec, vec_eq, views,
};

verus! {

broadcast use vstd::string::group_string_axioms;

/// The number of backticks at the start of `s`.
pub open spec fn backtick_run(s: Seq<char>) -> nat
    decreases s.len(),
{
    if s.len() > 0 && s[0] == '`' {
        1 + backtick_run(s.drop_first())
    } else {
        0
    }
}

/// The length of the raw fence a line opens or closes: the run of at least
/// three backticks that starts it after leading white space.
pub open spec fn fence_len(l: Seq<char>) -> Option<nat> {
    let n = backtick_run(trim_start(l));
    if n >= 3 {
        Some(n)
    } else {
        None
    }
}

/// The raw fence length of a line, if it is a fence line.
pub fn line_raw_fence_len(line: &Vec<char>) -> (r: Option<usize>)
    ensures
        match r {
            Some(n) => fence_len(line@) == Some(n as nat),
            None => fence_len(line@) is None,
        },
{
    let t = trim_start_vec(line);
    let mut n: usize = 0;
    assert(t@.skip(0) =~= t@);
    while n < t.len() && t[n] == '`'
        invariant
            n <= t.len(),
            backtick_run(t@) == n + backtick_run(t@.skip(n as int)),
        decreases t.len() - n,
    {
        assert(t@.skip(n as int).drop_first() =~= t@.skip(n + 1));
        n += 1;
    }
    proof {
        assert(t@.skip(0) =~= t@);
    }
    if n >= 3 {
        Some(n)
    } else {
        None
    }
}

/// One character fed to the inline-code stripper: the text kept so far,
/// whether inline code is open, and whether the previous character was a
/// backtick. A run of backticks toggles inline code once.
pub open spec fn code_step(st: (Seq<char>, bool, bool), c: char) -> (Seq<char>, bool, bool) {
    let (out, in_code, in_run) = st;
    if c == '`' {
        if in_run {
            st
        } else {
            (out, !in_code, true)
        }
    } else if in_code {
        (out, in_code, false)
    } else {
        (out.push(c), in_code, false)
    }
}

pub open spec fn code_fold(s: Seq<char>) -> (Seq<char>, bool, bool)
    decreases s.len(),
{
    if s.len() == 0 {
        (Seq::<char>::empty(), false, false)
    } else {
        code_step(code_fold(s.drop_last()), s.last())
    }
}

/// `s` without its inline code spans and their backticks.
pub open spec fn strip_code(s: Seq<char>) -> Seq<char> {
    code_fold(s).0
}

/// Removes inline code spans from a line.
pub fn strip_inline_code_spans(line: &Vec<char>) -> (r: Vec<char>)
    ensures
        r@ == strip_code(line@),
{
    let mut out: Vec<char> = Vec::new();
    let mut in_code = false;
    let mut in_run = false;
    let mut i: usize = 0;
    while i < line.len()
        invariant
            i <= line.len(),
            code_fold(line@.take(i as int)) == (out@, in_code, in_run),
        decreases line.len() - i,
    {
        assert(line@.take(i + 1).drop_last() =~= line@.take(i as int));
        let c = line[i];
        if c == '`' {
            if !in_run {
                in_code = !in_code;
                in_run = true;
            }
        } else {
            in_run = false;
            if !in_code {
                out.push(c);
            }
        }
        i += 1;
    }
    assert(line@.take(line.len() as int) =~= line@);
    out
}

/// The quoted text after the first `marker` in `line`: white space may
/// follow the marker, then a double quote opens the text and the next
/// double quote closes it.
pub open spec fn quoted_after(line: Seq<char>, marker: Seq<char>) -> Option<Seq<char>> {
    match find(line, marker) {
        None => None,
        Some(k) => {
            let rest = trim_start(line.skip(k + marker.len()));
            if rest.len() > 0 && rest[0] == '"' {
                let r2 = rest.drop_first();
                match find_char(r2, '"') {
                    Some(e) => Some(r2.take(e)),
                    None => None,
                }
            } else {
                None
            }
        },
    }
}

/// The quoted text after the first `marker` in `line`.
pub fn quoted_after_vec(line: &Vec<char>, marker: &str) -> (r: Option<Vec<char>>)
    ensures
        match r {
            Some(q) => quoted_after(line@, marker@) == Some(q@),
            None => quoted_after(line@, marker@) is None,
        },
{
    let m = chars_of(marker);
    match find_vec(line, &m) {
        None => None,
        Some(k) => {
            proof {
                lemma_find_from_bounds(line@, m@, 0);
                assert(matches_at(line@, m@, k as int));
                assert(k + m@.len() <= line@.len());
                assert(m@.len() == m.len());
            }
            let ml = m.len();
            assert(k + ml <= line.len());
            let start = k + ml;
            let after = subvec(line, start, line.len());
            assert(after@ =~= line@.skip(k + m@.len()));
            let rest = trim_start_vec(&after);
            if rest.len() > 0 && rest[0] == '"' {
                let r2 = subvec(&rest, 1, rest.len());
                assert(r2@ =~= rest@.drop_first());
                match find_char_vec(&r2, '"') {
                    Some(e) => {
                        proof {
                            lemma_find_from_bounds(r2@, seq!['"'], 0);
                        }
                        let q = subvec(&r2, 0, e);
                        assert(q@ =~= r2@.take(e as int));
                        Some(q)
                    },
                    None => None,
                }
            } else {
                None
            }
        },
    }
}

/// Where a dependency of a source in `base_dir` lies: `base_dir` joined with
/// the dependency, less a leading `./`.
pub open spec fn dependency_path_of(base_dir: Seq<char>, dep: Seq<char>) -> Seq<char> {
    join_path_of(
        base_dir,
        if starts_with(dep, seq!['.', '/']) {
            dep.skip(2)
        } else {
            dep
        },
    )
}

/// The path of the dependency `dep` of a source in `base_dir`.
pub fn normalize_dependency_path(base_dir: &str, dep: &str) -> (r: String)
    ensures
        r@ == dependency_path_of(base_dir@, dep@),
{
    let d = chars_of(dep);
    if d.len() >= 2 && d[0] == '.' && d[1] == '/' {
        assert(starts_with(d@, seq!['.', '/'])) by {
            assert(d@.subrange(0, 2) =~= seq!['.', '/']);
        }
        let rest = string_of(&subvec(&d, 2, d.len()));
        assert(rest@ =~= dep@.skip(2));
        join_path(base_dir, rest.as_str())
    } else {
        assert(!starts_with(d@, seq!['.', '/'])) by {
            if d@.len() >= 2 {
                assert(d@.subrange(0, 2)[0] == d@[0]);
                assert(d@.subrange(0, 2)[1] == d@[1]);
            }
        }
        join_path(base_dir, dep)
    }
}

/// Whether a dependency names a file of this project: not a package
/// (`@...`), not rooted at `/`, not an `http://`, `https://` or `data:` URL.
pub open spec fn is_local_path(path: Seq<char>) -> bool {
    !(starts_with(path, seq!['@']) || starts_with(path, seq!['/']) || starts_with(path, "http://"@)
        || starts_with(path, "https://"@) || starts_with(path, "data:"@))
}

/// Whether a Typst dependency path is local to the project.
pub fn is_local_typst_path(path: &str) -> (r: bool)
    ensures
        r == is_local_path(path@),
{
    let p = chars_of(path);
    let at = first_is(&p, '@');
    let slash = first_is(&p, '/');
    !(at || slash || starts_with_str(&p, "http://") || starts_with_str(&p, "https://")
        || starts_with_str(&p, "data:"))
}

/// Whether `v` starts with `c`.
fn first_is(v: &Vec<char>, c: char) -> (r: bool)
    ensures
        r == starts_with(v@, seq![c]),
{
    let r = v.len() > 0 && v[0] == c;
    proof {
        if v.len() > 0 {
            assert(v@.subrange(0, 1) =~= seq![v@[0]]);
            if starts_with(v@, seq![c]) {
                assert(v@.subrange(0, 1)[0] == c);
            }
        }
    }
    r
}

/// The markers that introduce a dependency, in the order they are tried.
pub open spec fn markers() -> Seq<Seq<char>> {
    seq!["#import"@, "#include"@, "read("@, "image("@]
}

/// The local dependencies one (code-stripped) line names, marker by marker.
pub open spec fn line_deps(l: Seq<char>) -> Seq<Seq<char>> {
    markers().fold_left(
        Seq::<Seq<char>>::empty(),
        |acc: Seq<Seq<char>>, mk: Seq<char>|
            match quoted_after(l, mk) {
                Some(p) => if is_local_path(p) {
                    acc.push(p)
                } else {
                    acc
                },
                None => acc,
            },
    )
}

/// The dependencies found in `ls` in order, and the raw fence open after
/// them. A fence line opens a raw block or closes one opened by a fence no
/// longer than it; lines in raw blocks name nothing.
pub open spec fn deps_fold(ls: Seq<Seq<char>>) -> (Seq<Seq<char>>, Option<nat>)
    decreases ls.len(),
{
    if ls.len() == 0 {
        (Seq::<Seq<char>>::empty(), None)
    } else {
        let (found, open) = deps_fold(ls.drop_last());
        let l = ls.last();
        match fence_len(l) {
            Some(f) => match open {
                Some(o) => if f >= o {
                    (found, None)
                } else {
                    (found, open)
                },
                None => (found, Some(f)),
            },
            None => if open is Some {
                (found, open)
            } else {
                (found + line_deps(strip_code(l)), open)
            },
        }
    }
}

/// The local dependency paths that a Typst source names.
pub open spec fn dependency_paths(body: Seq<char>) -> Set<Seq<char>> {
    deps_fold(lines(body)).0.to_set()
}

/// Adds `p` to `out` unless it is there already.
fn insert_unique(out: &mut Vec<String>, p: Vec<char>)
    requires
        string_views(old(out)@).no_duplicates(),
    ensures
        string_views(final(out)@).no_duplicates(),
        string_views(final(out)@).to_set() == string_views(old(out)@).to_set().insert(p@),
{
    let ghost before = string_views(out@);
    let mut i: usize = 0;
    while i < out.len()
        invariant
            i <= out.len(),
            before == string_views(out@),
            before.no_duplicates(),
            forall|k: int| 0 <= k < i ==> before[k] != p@,
        decreases out.len() - i,
    {
        let o = chars_of(out[i].as_str());
        if vec_eq(&o, &p) {
            assert(before[i as int] == p@);
            assert(before.to_set().insert(p@) =~= before.to_set());
            return;
        }
        i += 1;
    }
    let s = string_of(&p);
    out.push(s);
    assert(string_views(out@) =~= before.push(p@));
    proof {
        before.lemma_push_to_set_commute(p@);
        assert(!before.contains(p@));
    }
}

/// Adds to `out` the dependency that `marker` introduces in `line`, if any.
fn add_marker_dep(out: &mut Vec<String>, line: &Vec<char>, marker: &str, Ghost(found): Ghost<
    Seq<Seq<char>>,
>) -> (r: Ghost<Seq<Seq<char>>>)
    requires
        string_views(old(out)@).no_duplicates(),
        string_views(old(out)@).to_set() == found.to_set(),
    ensures
        string_views(final(out)@).no_duplicates(),
        string_views(final(out)@).to_set() == r@.to_set(),
        r@ == match quoted_after(line@, marker@) {
            Some(p) => if is_local_path(p) {
                found.push(p)
            } else {
                found
            },
            None => found,
        },
{
    match quoted_after_vec(line, marker) {
        Some(q) => {
            let qs = string_of(&q);
            if is_local_typst_path(qs.as_str()) {
                insert_unique(out, q);
                proof {
                    found.lemma_push_to_set_commute(q@);
                }
                Ghost(found.push(q@))
            } else {
                Ghost(found)
            }
        },
        None => Ghost(found),
    }
}

/// The local files that a Typst source depends on, each named once.
pub fn extract_dependency_paths(body: &str) -> (r: Vec<String>)
    ensures
        string_views(r@).no_duplicates(),
        string_views(r@).to_set() == dependency_paths(body@),
{
    let cs = chars_of(body);
    let ls = lines_vec(&cs);
    let ghost lv = views(ls@);
    let mut out: Vec<String> = Vec::new();
    let mut open: Option<usize> = None;
    let ghost mut found: Seq<Seq<char>> = Seq::empty();
    let mut i: usize = 0;
    assert(string_views(out@) =~= Seq::<Seq<char>>::empty());
    assert(found.to_set() =~= Set::<Seq<char>>::empty());
    assert(string_views(out@).to_set() =~= Set::<Seq<char>>::empty());
    while i < ls.len()
        invariant
            i <= ls.len(),
            lv == views(ls@),
            lv == lines(body@),
            deps_fold(lv.take(i as int)) == (found, match open {
                Some(n) => Some(n as nat),
                None => None,
            }),
            string_views(out@).no_duplicates(),
            string_views(out@).to_set() == found.to_set(),
        decreases ls.len() - i,
    {
        assert(lv.take(i + 1).drop_last() =~= lv.take(i as int));
        assert(lv.take(i + 1).last() == ls@[i as int]@);
        let line = &ls[i];
        match line_raw_fence_len(line) {
            Some(f) => {
                match open {
                    Some(o) => {
                        if f >= o {
                            open = None;
                        }
                    },
                    None => {
                        open = Some(f);
                    },
                }
            },
            None => {
                if open.is_none() {
                    let sl = strip_inline_code_spans(line);
                    let ghost f0 = found;
                    let Ghost(f1) = add_marker_dep(&mut out, &sl, "#import", Ghost(f0));
                    let Ghost(f2) = add_marker_dep(&mut out, &sl, "#include", Ghost(f1));
                    let Ghost(f3) = add_marker_dep(&mut out, &sl, "read(", Ghost(f2));
                    let Ghost(f4) = add_marker_dep(&mut out, &sl, "image(", Ghost(f3));
                    proof {
                        found = f4;
                        lemma_line_deps_unfold(sl@, f0);
                    }
                }
            },
        }
        i += 1;
    }
    assert(lv.take(ls.len() as int) =~= lv);
    out
}

/// Adding the dependencies of one line marker by marker gives `line_deps`.
proof fn lemma_line_deps_unfold(l: Seq<char>, f0: Seq<Seq<char>>)
    ensures
        f0 + line_deps(l) == {
            let step = |acc: Seq<Seq<char>>, mk: Seq<char>|
                match quoted_after(l, mk) {
                    Some(p) => if is_local_path(p) {
                        acc.push(p)
                    } else {
                        acc
                    },
                    None => acc,
                };
            step(step(step(step(f0, "#import"@), "#include"@), "read("@), "image("@)
        },
{
    let step = |acc: Seq<Seq<char>>, mk: Seq<char>|
        match quoted_after(l, mk) {
            Some(p) => if is_local_path(p) {
                acc.push(p)
            } else {
                acc
            },
            None => acc,
        };
    let ms = markers();
    assert(ms.drop_last().drop_last().drop_last().drop_last() =~= Seq::<Seq<char>>::empty());
    reveal_with_fuel(Seq::fold_left, 5);
    let e = Seq::<Seq<char>>::empty();
    let a1 = step(e, "#import"@);
    let a2 = step(a1, "#include"@);
    let a3 = step(a2, "read("@);
    let a4 = step(a3, "image("@);
    assert(line_deps(l) == a4);
    assert(f0 + a1 == step(f0, "#import"@));
    assert(f0 + a2 == step(f0 + a1, "#include"@));
    assert(f0 + a3 == step(f0 + a2, "read("@));
    assert(f0 + a4 == step(f0 + a3, "image("@));
}

} // verus!
