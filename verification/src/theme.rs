//! Theme checks: the version a theme asks for and the components its
//! library exports.
use vstd::prelude::*;

use crate::text::{
    all_digits, chars_of, digits_to_u64, digits_value, find, find_vec, is_ascii_digit, replace_all,
    replace_vec, string_of,
};
use crate::typst::version_before;
use crate::util::{typst_string, typst_string_of};

verus! {

broadcast use vstd::string::group_string_axioms;

// ---------------------------------------------------------------------------
// Versions
// ---------------------------------------------------------------------------

/// The runs of ASCII digits of a text so far, and the run still open.
pub open spec fn digit_runs_fold(s: Seq<char>) -> (Seq<Seq<char>>, Seq<char>)
    decreases s.len(),
{
    if s.len() == 0 {
        (Seq::<Seq<char>>::empty(), Seq::<char>::empty())
    } else {
        let (runs, cur) = digit_runs_fold(s.drop_last());
        if is_ascii_digit(s.last()) {
            (runs, cur.push(s.last()))
        } else if cur.len() > 0 {
            (runs.push(cur), Seq::<char>::empty())
        } else {
            (runs, cur)
        }
    }
}

/// The maximal runs of ASCII digits of a text, in order.
pub open spec fn digit_runs(s: Seq<char>) -> Seq<Seq<char>> {
    let (runs, cur) = digit_runs_fold(s);
    if cur.len() > 0 {
        runs.push(cur)
    } else {
        runs
    }
}

/// The number a run of digits states, or 0 when it does not fit in 64
/// bits.
pub open spec fn run_value(run: Seq<char>) -> u64 {
    if digits_value(run) <= u64::MAX {
        digits_value(run) as u64
    } else {
        0
    }
}

/// The `k`th number of a text (counting its digit runs), or 0.
pub open spec fn nth_number(runs: Seq<Seq<char>>, k: int) -> u64 {
    if k < runs.len() {
        run_value(runs[k])
    } else {
        0
    }
}

/// A version as three numbers: the first three runs of digits of a text
/// (anything else separates them), each 0 when missing or too large.
pub open spec fn version_tuple_of(s: Seq<char>) -> (u64, u64, u64) {
    let runs = digit_runs(s);
    (nth_number(runs, 0), nth_number(runs, 1), nth_number(runs, 2))
}

proof fn lemma_fold_digits(s: Seq<char>)
    ensures
        all_digits(digit_runs_fold(s).1),
        forall|k: int| 0 <= k < digit_runs_fold(s).0.len() ==> all_digits(#[trigger] digit_runs_fold(s).0[k]),
    decreases s.len(),
{
    if s.len() > 0 {
        lemma_fold_digits(s.drop_last());
    }
}

fn run_number(run: &Vec<char>) -> (r: u64)
    requires
        all_digits(run@),
    ensures
        r == run_value(run@),
{
    match digits_to_u64(run) {
        Some(n) => n,
        None => 0,
    }
}

/// A version as three numbers.
pub fn parse_version_tuple(input: &str) -> (r: (u64, u64, u64))
    ensures
        r == version_tuple_of(input@),
{
    let cs = chars_of(input);
    let mut runs: Vec<Vec<char>> = Vec::new();
    let mut cur: Vec<char> = Vec::new();
    let mut i: usize = 0;
    while i < cs.len()
        invariant
            i <= cs@.len(),
            cs@ == input@,
            runs@.map_values(|v: Vec<char>| v@) == digit_runs_fold(cs@.take(i as int)).0,
            cur@ == digit_runs_fold(cs@.take(i as int)).1,
        decreases cs.len() - i,
    {
        assert(cs@.take(i + 1).drop_last() =~= cs@.take(i as int));
        assert(cs@.take(i + 1).last() == cs@[i as int]);
        let c = cs[i];
        if '0' <= c && c <= '9' {
            cur.push(c);
        } else if cur.len() > 0 {
            let ghost before = runs@.map_values(|v: Vec<char>| v@);
            let done = cur;
            runs.push(done);
            cur = Vec::new();
            assert(runs@.map_values(|v: Vec<char>| v@) =~= before.push(runs@[runs@.len() - 1]@));
        }
        i += 1;
    }
    assert(cs@.take(cs@.len() as int) =~= cs@);
    if cur.len() > 0 {
        let ghost before = runs@.map_values(|v: Vec<char>| v@);
        runs.push(cur);
        assert(runs@.map_values(|v: Vec<char>| v@) =~= before.push(runs@[runs@.len() - 1]@));
    }
    let ghost rv = runs@.map_values(|v: Vec<char>| v@);
    assert(rv == digit_runs(input@));
    proof {
        lemma_fold_digits(input@);
        assert forall|k: int| 0 <= k < rv.len() implies all_digits(#[trigger] rv[k]) by {
            if k < digit_runs_fold(input@).0.len() {
                assert(rv[k] == digit_runs_fold(input@).0[k]);
            }
        }
    }
    let major = if runs.len() > 0 {
        assert(runs@[0]@ == rv[0]);
        run_number(&runs[0])
    } else {
        0
    };
    let minor = if runs.len() > 1 {
        assert(runs@[1]@ == rv[1]);
        run_number(&runs[1])
    } else {
        0
    };
    let patch = if runs.len() > 2 {
        assert(runs@[2]@ == rv[2]);
        run_number(&runs[2])
    } else {
        0
    };
    (major, minor, patch)
}

/// Whether version `current` comes before version `min`, comparing their
/// three numbers in order.
pub fn version_lt(current: &str, min: &str) -> (r: bool)
    ensures
        r == version_before(version_tuple_of(current@), version_tuple_of(min@)),
{
    let a = parse_version_tuple(current);
    let b = parse_version_tuple(min);
    a.0 < b.0 || (a.0 == b.0 && (a.1 < b.1 || (a.1 == b.1 && a.2 < b.2)))
}

// ---------------------------------------------------------------------------
// Components
// ---------------------------------------------------------------------------

/// The name a theme library exports a component under: hyphens become
/// underscores, then `_link` becomes `-link`.
pub open spec fn export_name_of(name: Seq<char>) -> Seq<char> {
    replace_all(replace_all(name, "-"@, "_"@), "_link"@, "-link"@)
}

/// The name a theme library exports a component under.
pub fn component_name_to_export(name: &str) -> (r: String)
    ensures
        r@ == export_name_of(name@),
{
    let dash = chars_of("-");
    let under = chars_of("_");
    let link = chars_of("_link");
    proof {
        reveal_strlit("-");
        reveal_strlit("_link");
    }
    let a = replace_vec(&chars_of(name), &dash, &under);
    let b = replace_vec(&a, &link, &chars_of("-link"));
    string_of(&b)
}

/// Whether a text contains another.
pub open spec fn contains_text(s: Seq<char>, p: Seq<char>) -> bool {
    find(s, p) is Some
}

/// Whether a theme library exports `name`: it holds `#let name`,
/// `: name`, `, name` or ` name`.
pub open spec fn exported_of(lib: Seq<char>, name: Seq<char>) -> bool {
    contains_text(lib, "#let "@ + name) || contains_text(lib, ": "@ + name) || contains_text(
        lib,
        ", "@ + name,
    ) || contains_text(lib, " "@ + name)
}

fn contains_vec(s: &Vec<char>, prefix: &str, name: &Vec<char>) -> (r: bool)
    ensures
        r == contains_text(s@, prefix@ + name@),
{
    let mut p = chars_of(prefix);
    let mut i: usize = 0;
    let ghost start = p@;
    while i < name.len()
        invariant
            i <= name@.len(),
            p@ == start + name@.take(i as int),
        decreases name.len() - i,
    {
        p.push(name[i]);
        assert(name@.take(i + 1) =~= name@.take(i as int).push(name@[i as int]));
        i += 1;
    }
    assert(name@.take(name@.len() as int) =~= name@);
    find_vec(s, &p).is_some()
}

/// Whether a theme library exports the component `name`.
pub fn component_exported(lib: &str, name: &str) -> (r: bool)
    ensures
        r == exported_of(lib@, name@),
{
    let s = chars_of(lib);
    let n = chars_of(name);
    contains_vec(&s, "#let ", &n) || contains_vec(&s, ": ", &n) || contains_vec(&s, ", ", &n)
        || contains_vec(&s, " ", &n)
}

// ---------------------------------------------------------------------------
// New themes
// ---------------------------------------------------------------------------

/// The version of typage itself, which the local packages carry.
pub const TYPAGE_VERSION: &'static str = "0.1.0";

/// The `theme.toml` of a new theme: its name, version 0.1.0, a short
/// description, the typage version it needs, all built-in components on,
/// and an accent colour.
pub open spec fn default_theme_toml_of(name: Seq<char>) -> Seq<char> {
    "name = "@ + typst_string_of(name)
        + "\nversion = \"0.1.0\"\ndescription = \"A typage theme.\"\nmin_typage = \""@
        + TYPAGE_VERSION@
        + "\"\n\n[components]\nnote = true\ncallout = true\ncard = true\nfig = true\nyoutube = true\npage_link = true\ntaxonomy_link = true\n\n[extra]\naccent = \"#2563eb\"\n"@
}

/// The `theme.toml` of a new theme.
pub fn default_theme_toml(name: &str) -> (r: String)
    ensures
        r@ == default_theme_toml_of(name@),
{
    let mut s = String::new();
    crate::text::push_chars(&mut s, &chars_of("name = "));
    crate::text::push_chars(&mut s, &chars_of(typst_string(name).as_str()));
    crate::text::push_chars(
        &mut s,
        &chars_of("\nversion = \"0.1.0\"\ndescription = \"A typage theme.\"\nmin_typage = \""),
    );
    crate::text::push_chars(&mut s, &chars_of(TYPAGE_VERSION));
    crate::text::push_chars(
        &mut s,
        &chars_of(
            "\"\n\n[components]\nnote = true\ncallout = true\ncard = true\nfig = true\nyoutube = true\npage_link = true\ntaxonomy_link = true\n\n[extra]\naccent = \"#2563eb\"\n",
        ),
    );
    assert(s@ =~= default_theme_toml_of(name@));
    s
}

} // verus!
