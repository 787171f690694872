//! The directory policy of a site: settings that would make a build read
//! its own output, overwrite its sources, or leave the project root.
use vstd::prelude::*;

use crate::config::Config;
use crate::paths::{
    components, cur_comp, join_path, join_path_of, parent_comp, path_components, project_dir_problem,
    root_comp, validate_project_relative_dir,
};
use crate::permalink::rebuild_path;
use crate::script::string_views;
use crate::text::{
    chars_of, contains_char, matches_at, matches_at_vec, push_chars, string_of, trim, trim_vec,
    vec_eq, views,
};
use crate::util::join_vecs;

verus! {

broadcast use vstd::string::group_string_axioms;

// ---------------------------------------------------------------------------
// Cleaned paths
// ---------------------------------------------------------------------------

/// The components left after pushing `cs` in turn onto an empty path,
/// where `.` is skipped and `..` pops the last name (`clean_path`).
pub open spec fn cleaned(cs: Seq<Seq<char>>) -> Seq<Seq<char>>
    decreases cs.len(),
{
    if cs.len() == 0 {
        Seq::<Seq<char>>::empty()
    } else {
        let prev = cleaned(cs.drop_last());
        let c = cs.last();
        if c == cur_comp() {
            prev
        } else if c == parent_comp() {
            if prev.len() > 0 && prev.last() != root_comp() {
                prev.drop_last()
            } else {
                prev
            }
        } else if c == root_comp() {
            seq![root_comp()]
        } else {
            prev.push(c)
        }
    }
}

/// The components of a path after cleaning.
pub open spec fn clean_comps(p: Seq<char>) -> Seq<Seq<char>> {
    cleaned(components(p))
}

/// Whether `a` is a leading run of components of `b` (`Path::starts_with`).
pub open spec fn comps_prefix(a: Seq<Seq<char>>, b: Seq<Seq<char>>) -> bool {
    a.len() <= b.len() && b.take(a.len() as int) == a
}

fn is_comp(v: &Vec<char>, a: char, b: Option<char>) -> (r: bool)
    ensures
        r == (v@ == (match b {
            Some(x) => seq![a, x],
            None => seq![a],
        })),
{
    match b {
        Some(x) => {
            let r = v.len() == 2 && v[0] == a && v[1] == x;
            proof {
                if r {
                    assert(v@ =~= seq![a, x]);
                }
            }
            r
        },
        None => {
            let r = v.len() == 1 && v[0] == a;
            proof {
                if r {
                    assert(v@ =~= seq![a]);
                }
            }
            r
        },
    }
}

/// The cleaned components of a path.
pub fn clean_path(p: &str) -> (r: Vec<Vec<char>>)
    ensures
        views(r@) == clean_comps(p@),
{
    let pc = chars_of(p);
    let cs = path_components(&pc);
    let ghost cv = views(cs@);
    let mut out: Vec<Vec<char>> = Vec::new();
    let mut i: usize = 0;
    while i < cs.len()
        invariant
            i <= cs.len(),
            cv == views(cs@),
            cv == components(p@),
            views(out@) == cleaned(cv.take(i as int)),
        decreases cs.len() - i,
    {
        assert(cv.take(i + 1).drop_last() =~= cv.take(i as int));
        assert(cv.take(i + 1).last() == cs@[i as int]@);
        let c = &cs[i];
        let ghost before = views(out@);
        if is_comp(c, '.', None) {
        } else if is_comp(c, '.', Some('.')) {
            if out.len() > 0 && !is_comp(&out[out.len() - 1], '/', None) {
                assert(before.last() == out@[out.len() - 1]@);
                out.pop();
                assert(views(out@) =~= before.drop_last());
            }
        } else if is_comp(c, '/', None) {
            let mut root: Vec<char> = Vec::new();
            root.push('/');
            out = Vec::new();
            out.push(root);
            assert(views(out@) =~= seq![root_comp()]);
        } else {
            out.push(crate::text::copy_chars(c));
            assert(views(out@) =~= before.push(c@));
        }
        i += 1;
    }
    assert(cv.take(cs.len() as int) =~= cv);
    out
}

/// The text of cleaned components.
fn show_path(cs: &Vec<Vec<char>>) -> (r: Vec<char>)
    ensures
        r@ == rebuild_path(views(cs@)),
{
    let mut sep: Vec<char> = Vec::new();
    sep.push('/');
    assert(sep@ =~= seq!['/']);
    if cs.len() > 0 && is_comp(&cs[0], '/', None) {
        let mut rest: Vec<Vec<char>> = Vec::new();
        let mut i: usize = 1;
        while i < cs.len()
            invariant
                1 <= i <= cs.len(),
                views(rest@) == views(cs@).subrange(1, i as int),
            decreases cs.len() - i,
        {
            let ghost before = views(rest@);
            rest.push(crate::text::copy_chars(&cs[i]));
            assert(views(cs@)[i as int] == cs@[i as int]@);
            assert(views(rest@) =~= before.push(cs@[i as int]@));
            assert(views(rest@) =~= views(cs@).subrange(1, i + 1));
            i += 1;
        }
        assert(views(cs@).subrange(1, cs.len() as int) =~= views(cs@).drop_first());
        assert(views(cs@)[0] == cs@[0]@);
        let joined = join_vecs(&rest, &sep);
        let mut out: Vec<char> = Vec::new();
        out.push('/');
        let mut j: usize = 0;
        while j < joined.len()
            invariant
                j <= joined.len(),
                out@ == seq!['/'] + joined@.take(j as int),
            decreases joined.len() - j,
        {
            out.push(joined[j]);
            j += 1;
            assert(out@ =~= seq!['/'] + joined@.take(j as int));
        }
        assert(joined@.take(joined.len() as int) =~= joined@);
        out
    } else {
        proof {
            if cs.len() > 0 {
                assert(views(cs@)[0] == cs@[0]@);
            }
        }
        join_vecs(cs, &sep)
    }
}

fn comps_equal(a: &Vec<Vec<char>>, b: &Vec<Vec<char>>) -> (r: bool)
    ensures
        r == (views(a@) == views(b@)),
{
    if a.len() != b.len() {
        assert(views(a@).len() == a@.len());
        assert(views(b@).len() == b@.len());
        return false;
    }
    let mut i: usize = 0;
    while i < a.len()
        invariant
            i <= a.len(),
            a.len() == b.len(),
            forall|k: int| 0 <= k < i ==> views(a@)[k] == views(b@)[k],
        decreases a.len() - i,
    {
        assert(views(a@)[i as int] == a@[i as int]@);
        assert(views(b@)[i as int] == b@[i as int]@);
        if !vec_eq(&a[i], &b[i]) {
            return false;
        }
        i += 1;
    }
    assert(views(a@) =~= views(b@));
    true
}

fn comps_starts_with(b: &Vec<Vec<char>>, a: &Vec<Vec<char>>) -> (r: bool)
    ensures
        r == comps_prefix(views(a@), views(b@)),
{
    if a.len() > b.len() {
        return false;
    }
    let mut i: usize = 0;
    while i < a.len()
        invariant
            i <= a.len(),
            a.len() <= b.len(),
            forall|k: int| 0 <= k < i ==> views(a@)[k] == views(b@)[k],
        decreases a.len() - i,
    {
        assert(views(a@)[i as int] == a@[i as int]@);
        assert(views(b@)[i as int] == b@[i as int]@);
        if !vec_eq(&a[i], &b[i]) {
            assert(views(b@).take(a.len() as int)[i as int] != views(a@)[i as int]);
            return false;
        }
        i += 1;
    }
    assert(views(b@).take(a.len() as int) =~= views(a@));
    true
}

// ---------------------------------------------------------------------------
// The policy
// ---------------------------------------------------------------------------

/// The message, if any, for an output directory that overlaps a protected
/// input directory `name`.
pub open spec fn overlap_error(out: Seq<Seq<char>>, name: Seq<char>, path: Seq<Seq<char>>) -> Option<
    Seq<char>,
> {
    if out == path {
        Some("out_dir must not equal "@ + name + ": "@ + rebuild_path(path))
    } else if comps_prefix(path, out) {
        Some("out_dir must not be inside "@ + name + ": "@ + rebuild_path(path))
    } else if comps_prefix(out, path) {
        Some("out_dir must not contain "@ + name + ": "@ + rebuild_path(path))
    } else {
        None
    }
}

/// The message, if any, for an output directory that overlaps a static
/// asset directory.
pub open spec fn static_overlap_error(out: Seq<Seq<char>>, path: Seq<Seq<char>>) -> Option<Seq<char>> {
    if out == path {
        Some("out_dir must not equal static_dir/theme static dir: "@ + rebuild_path(path))
    } else if comps_prefix(path, out) {
        Some("out_dir must not be inside static asset input dir: "@ + rebuild_path(path))
    } else if comps_prefix(out, path) {
        Some("out_dir must not contain static asset input dir: "@ + rebuild_path(path))
    } else {
        None
    }
}

/// A message as a list of zero or one messages.
pub open spec fn listed(o: Option<Seq<char>>) -> Seq<Seq<char>> {
    match o {
        Some(m) => seq![m],
        None => Seq::<Seq<char>>::empty(),
    }
}

/// The text `..`.
pub open spec fn dot_dot() -> Seq<char> {
    seq!['.', '.']
}

/// Why a theme name is refused, if it is: blank, or holding `/`, `\` or
/// `..`.
pub open spec fn theme_name_problem(name: Seq<char>) -> Option<Seq<char>> {
    let t = trim(name);
    if t.len() == 0 {
        Some("theme name must not be empty"@)
    } else if t.contains('/') || t.contains('\\') || exists|i: int|
        #[trigger] matches_at(t, dot_dot(), i) {
        Some("invalid theme name: "@ + name)
    } else {
        None
    }
}

/// Checks a theme name.
pub fn validate_theme_name(name: &str) -> (r: Option<String>)
    ensures
        r matches Some(m) ==> theme_name_problem(name@) == Some(m@),
        r is None ==> theme_name_problem(name@) is None,
{
    let cs = chars_of(name);
    let t = trim_vec(&cs);
    if t.len() == 0 {
        return Some(String::from_str("theme name must not be empty"));
    }
    let mut dots: Vec<char> = Vec::new();
    dots.push('.');
    dots.push('.');
    assert(dots@ =~= dot_dot());
    let mut has_dots = false;
    let mut i: usize = 0;
    while i < t.len()
        invariant
            i <= t.len(),
            dots@ == dot_dot(),
            !has_dots ==> forall|j: int| 0 <= j < i ==> !matches_at(t@, dots@, j),
            has_dots ==> exists|j: int| #[trigger] matches_at(t@, dot_dot(), j),
        decreases t.len() - i,
    {
        if matches_at_vec(&t, &dots, i) {
            has_dots = true;
        }
        i += 1;
    }
    proof {
        if !has_dots {
            assert forall|j: int| !#[trigger] matches_at(t@, dot_dot(), j) by {
                if 0 <= j < t.len() {
                } else {
                    assert(!matches_at(t@, dots@, j));
                }
            }
        }
    }
    if contains_char(&t, '/') || contains_char(&t, '\\') || has_dots {
        let mut m = String::from_str("invalid theme name: ");
        m.append(name);
        return Some(m);
    }
    None
}

/// The theme whose name is set and not blank.
pub open spec fn active_theme(theme: Option<Seq<char>>) -> Option<Seq<char>> {
    match theme {
        Some(t) => if trim(t).len() > 0 {
            Some(t)
        } else {
            None
        },
        None => None,
    }
}

/// The messages for static asset directories that overlap the output.
pub open spec fn static_errors(out: Seq<Seq<char>>, roots: Seq<Seq<char>>) -> Seq<Seq<char>>
    decreases roots.len(),
{
    if roots.len() == 0 {
        Seq::<Seq<char>>::empty()
    } else {
        static_errors(out, roots.drop_last()) + listed(
            static_overlap_error(out, clean_comps(roots.last())),
        )
    }
}

/// Every problem with a site's directory layout, in order: directory
/// settings that are empty, absolute or climb out of the root; a refused
/// theme name; an output directory that is the root, or that equals, lies
/// inside or contains the content, template or cache directory or a static
/// asset directory.
pub open spec fn policy_errors(
    root: Seq<char>,
    content_dir: Seq<char>,
    templates_dir: Seq<char>,
    static_dir: Seq<char>,
    out_dir: Seq<char>,
    cache_dir: Seq<char>,
    theme: Option<Seq<char>>,
    content_root: Seq<char>,
    templates_root: Seq<char>,
    static_roots: Seq<Seq<char>>,
    out_root: Seq<char>,
) -> Seq<Seq<char>> {
    let r = clean_comps(root);
    let out = clean_comps(out_root);
    let cache = clean_comps(join_path_of(rebuild_path(r), cache_dir));
    listed(project_dir_problem("content_dir"@, content_dir)) + listed(
        project_dir_problem("templates_dir"@, templates_dir),
    ) + listed(project_dir_problem("static_dir"@, static_dir)) + listed(
        project_dir_problem("out_dir"@, out_dir),
    ) + listed(project_dir_problem("cache_dir"@, cache_dir)) + listed(
        match active_theme(theme) {
            Some(t) => theme_name_problem(t),
            None => None,
        },
    ) + (if out == r {
        seq!["out_dir must not be the project root"@]
    } else {
        Seq::<Seq<char>>::empty()
    }) + listed(overlap_error(out, "content_dir"@, clean_comps(content_root))) + listed(
        overlap_error(out, "templates_dir"@, clean_comps(templates_root)),
    ) + listed(overlap_error(out, "cache_dir"@, cache)) + static_errors(out, static_roots)
}

fn push_opt(errors: &mut Vec<String>, o: Option<String>)
    ensures
        string_views(final(errors)@) == string_views(old(errors)@) + listed(
            match o {
                Some(m) => Some(m@),
                None => None,
            },
        ),
{
    let ghost before = string_views(errors@);
    match o {
        Some(m) => {
            errors.push(m);
            assert(string_views(errors@) =~= before.push(m@));
        },
        None => {
            assert(before + Seq::<Seq<char>>::empty() =~= before);
        },
    }
}

fn overlap_message(out: &Vec<Vec<char>>, prefix_eq: &str, prefix_in: &str, prefix_has: &str, path: &Vec<
    Vec<char>,
>) -> (r: Option<String>)
    ensures
        r matches Some(m) ==> (if views(out@) == views(path@) {
            m@ == prefix_eq@ + rebuild_path(views(path@))
        } else if comps_prefix(views(path@), views(out@)) {
            m@ == prefix_in@ + rebuild_path(views(path@))
        } else {
            comps_prefix(views(out@), views(path@)) && m@ == prefix_has@ + rebuild_path(
                views(path@),
            )
        }),
        r is None <==> (views(out@) != views(path@) && !comps_prefix(views(path@), views(out@))
            && !comps_prefix(views(out@), views(path@))),
{
    let shown = show_path(path);
    if comps_equal(out, path) {
        let mut m = String::from_str(prefix_eq);
        push_chars(&mut m, &shown);
        Some(m)
    } else if comps_starts_with(out, path) {
        let mut m = String::from_str(prefix_in);
        push_chars(&mut m, &shown);
        Some(m)
    } else if comps_starts_with(path, out) {
        let mut m = String::from_str(prefix_has);
        push_chars(&mut m, &shown);
        Some(m)
    } else {
        None
    }
}

/// The message for a protected input directory `name` that overlaps the
/// output.
fn protected_overlap(out: &Vec<Vec<char>>, name: &str, path: &Vec<Vec<char>>) -> (r: Option<String>)
    ensures
        match r {
            Some(m) => overlap_error(views(out@), name@, views(path@)) == Some(m@),
            None => overlap_error(views(out@), name@, views(path@)) is None,
        },
{
    let mut eq = String::from_str("out_dir must not equal ");
    eq.append(name);
    eq.append(": ");
    let mut inside = String::from_str("out_dir must not be inside ");
    inside.append(name);
    inside.append(": ");
    let mut has = String::from_str("out_dir must not contain ");
    has.append(name);
    has.append(": ");
    overlap_message(out, eq.as_str(), inside.as_str(), has.as_str(), path)
}

/// Every problem with a site's directory layout; empty when the layout is
/// safe to build.
pub fn validate_directory_policy(
    root: &str,
    cfg: &Config,
    content_root: &str,
    templates_root: &str,
    static_roots: &Vec<String>,
    out_root: &str,
) -> (r: Vec<String>)
    ensures
        string_views(r@) == policy_errors(
            root@,
            cfg.content_dir@,
            cfg.templates_dir@,
            cfg.static_dir@,
            cfg.out_dir@,
            cfg.cache_dir@,
            crate::permalink::opt_seq(cfg.theme),
            content_root@,
            templates_root@,
            string_views(static_roots@),
            out_root@,
        ),
{
    let mut errors: Vec<String> = Vec::new();
    push_opt(&mut errors, validate_project_relative_dir("content_dir", cfg.content_dir.as_str()));
    push_opt(
        &mut errors,
        validate_project_relative_dir("templates_dir", cfg.templates_dir.as_str()),
    );
    push_opt(&mut errors, validate_project_relative_dir("static_dir", cfg.static_dir.as_str()));
    push_opt(&mut errors, validate_project_relative_dir("out_dir", cfg.out_dir.as_str()));
    push_opt(&mut errors, validate_project_relative_dir("cache_dir", cfg.cache_dir.as_str()));
    let theme_problem = match &cfg.theme {
        Some(t) => {
            let tc = chars_of(t.as_str());
            if trim_vec(&tc).len() > 0 {
                validate_theme_name(t.as_str())
            } else {
                None
            }
        },
        None => None,
    };
    push_opt(&mut errors, theme_problem);
    let r = clean_path(root);
    let out = clean_path(out_root);
    let root_shown = string_of(&show_path(&r));
    let cache_path = join_path(root_shown.as_str(), cfg.cache_dir.as_str());
    let cache = clean_path(cache_path.as_str());
    let ghost before_root = string_views(errors@);
    if comps_equal(&out, &r) {
        errors.push(String::from_str("out_dir must not be the project root"));
        assert(string_views(errors@) =~= before_root + seq!["out_dir must not be the project root"@]);
    } else {
        assert(before_root + Seq::<Seq<char>>::empty() =~= before_root);
    }
    let content = clean_path(content_root);
    push_opt(&mut errors, protected_overlap(&out, "content_dir", &content));
    let templates = clean_path(templates_root);
    push_opt(&mut errors, protected_overlap(&out, "templates_dir", &templates));
    push_opt(&mut errors, protected_overlap(&out, "cache_dir", &cache));
    let ghost fixed = string_views(errors@);
    let ghost sv = string_views(static_roots@);
    let mut i: usize = 0;
    while i < static_roots.len()
        invariant
            i <= static_roots.len(),
            sv == string_views(static_roots@),
            views(out@) == clean_comps(out_root@),
            string_views(errors@) == fixed + static_errors(views(out@), sv.take(i as int)),
        decreases static_roots.len() - i,
    {
        assert(sv.take(i + 1).drop_last() =~= sv.take(i as int));
        assert(sv.take(i + 1).last() == static_roots@[i as int]@);
        let p = clean_path(static_roots[i].as_str());
        let m = overlap_message(
            &out,
            "out_dir must not equal static_dir/theme static dir: ",
            "out_dir must not be inside static asset input dir: ",
            "out_dir must not contain static asset input dir: ",
            &p,
        );
        let ghost before = string_views(errors@);
        push_opt(&mut errors, m);
        assert(string_views(errors@) =~= fixed + static_errors(views(out@), sv.take(i + 1)));
        i += 1;
    }
    assert(sv.take(static_roots.len() as int) =~= sv);
    errors
}

/// The static asset directories of a site: the active theme's `static`
/// directory first, then the site's own.
pub open spec fn static_roots_of(root: Seq<char>, static_dir: Seq<char>, theme: Option<Seq<char>>) -> Seq<
    Seq<char>,
> {
    let own = seq![join_path_of(root, static_dir)];
    match active_theme(theme) {
        Some(t) => seq![
            join_path_of(join_path_of(join_path_of(root, "themes"@), t), "static"@),
        ] + own,
        None => own,
    }
}

/// The static asset directories of the site at `root`.
pub fn static_roots(root: &str, cfg: &Config) -> (r: Vec<String>)
    ensures
        string_views(r@) == static_roots_of(
            root@,
            cfg.static_dir@,
            crate::permalink::opt_seq(cfg.theme),
        ),
{
    let mut roots: Vec<String> = Vec::new();
    match &cfg.theme {
        Some(t) => {
            let tc = chars_of(t.as_str());
            if trim_vec(&tc).len() > 0 {
                let themes = join_path(root, "themes");
                let dir = join_path(themes.as_str(), t.as_str());
                roots.push(join_path(dir.as_str(), "static"));
            }
        },
        None => {},
    }
    let ghost before = string_views(roots@);
    roots.push(join_path(root, cfg.static_dir.as_str()));
    assert(string_views(roots@) =~= before + seq![join_path_of(root@, cfg.static_dir@)]);
    roots
}

} // verus!
