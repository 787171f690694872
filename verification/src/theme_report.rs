//! Theme reports: what `theme check`, `theme info` and `theme list` say of
//! an installed theme, from what was found on disk about it.
use vstd::prelude::*;

use crate::paths::{join_path, join_path_of};
use crate::script::string_views;
use crate::text::{chars_of, trim, trim_vec};
use crate::theme::{
    component_exported, component_name_to_export, export_name_of, exported_of, version_lt,
    version_tuple_of,
};
use crate::typst::version_before;

verus! {

broadcast use vstd::string::group_string_axioms;

/// The text that `{:?}` makes of a string (`<str as Debug>::fmt`): the
/// string in double quotes, with escapes.
pub uninterp spec fn debug_str(s: Seq<char>) -> Seq<char>;

/// Whether `c` is printable ASCII other than `"` and `\`.
pub open spec fn plain_debug_char(c: char) -> bool {
    ' ' <= c && c <= '~' && c != '"' && c != '\\'
}

/// `format!("{:?}", s)` for a string. The result is the named text
/// `debug_str`; for text of printable ASCII characters other than `"` and
/// `\` it is the text in double quotes, as std's `Debug` for `str`
/// documents. How other characters are escaped is left unsaid.
#[verifier::external_body]
fn debug_text(s: &str) -> (r: String)
    ensures
        r@ == debug_str(s@),
        (forall|i: int| 0 <= i < s@.len() ==> plain_debug_char(#[trigger] s@[i])) ==> r@ == seq![
            '"',
        ] + s@ + seq!['"'],
{
    format!("{:?}", s)
}

/// What `{:?}` makes of an optional string: `Some(..)` around the quoted
/// string, or `None`.
pub open spec fn debug_opt(o: Option<Seq<char>>) -> Seq<char> {
    match o {
        Some(s) => "Some("@ + debug_str(s) + ")"@,
        None => "None"@,
    }
}

/// The metadata a theme's `theme.toml` gives.
#[derive(Debug, Clone)]
pub struct ThemeMeta {
    pub name: Option<String>,
    pub version: Option<String>,
    pub description: Option<String>,
    pub min_typage: Option<String>,
    /// The declared components and whether each is on, in name order.
    pub components: Vec<(String, bool)>,
    /// The keys of the `[extra]` table, in name order.
    pub extra_keys: Vec<String>,
}

/// What was found on disk about a theme directory.
pub struct ThemeFacts {
    /// The directory exists.
    pub dir_exists: bool,
    /// `theme.toml`, read and parsed, or the error that stopped it.
    pub meta: Result<ThemeMeta, String>,
    /// `templates/` exists.
    pub templates_exist: bool,
    /// `static/` exists.
    pub static_exists: bool,
    /// `templates/components/` exists.
    pub components_exist: bool,
    /// `templates/components/lib.typ` exists.
    pub entry_exists: bool,
    /// The text of `templates/components/lib.typ`, or the error reading it.
    pub lib: Result<String, String>,
}

/// A theme's report: its name and path, its metadata when it could be
/// read, and the errors and warnings found.
#[derive(Debug)]
pub struct ThemeReport {
    pub name: String,
    pub path: String,
    pub meta: Option<ThemeMeta>,
    pub errors: Vec<String>,
    pub warnings: Vec<String>,
}

impl ThemeReport {
    /// Whether the theme has no errors.
    pub fn ok(&self) -> (r: bool)
        ensures
            r == (self.errors@.len() == 0),
    {
        self.errors.len() == 0
    }
}

/// The text of an optional string.
pub open spec fn opt_text(o: Option<String>) -> Option<Seq<char>> {
    match o {
        Some(s) => Some(s@),
        None => None,
    }
}

/// The pair views of a component list.
pub open spec fn component_views(cs: Seq<(String, bool)>) -> Seq<(Seq<char>, bool)> {
    cs.map_values(|p: (String, bool)| (p.0@, p.1))
}

/// What a report keeps of a theme's metadata besides its name.
pub open spec fn meta_view(m: ThemeMeta) -> (
    Option<Seq<char>>,
    Option<Seq<char>>,
    Option<Seq<char>>,
    Seq<(Seq<char>, bool)>,
    Seq<Seq<char>>,
) {
    (
        opt_text(m.version),
        opt_text(m.description),
        opt_text(m.min_typage),
        component_views(m.components@),
        string_views(m.extra_keys@),
    )
}

fn copy_components(cs: &Vec<(String, bool)>) -> (r: Vec<(String, bool)>)
    ensures
        component_views(r@) == component_views(cs@),
{
    let mut out: Vec<(String, bool)> = Vec::new();
    let mut i: usize = 0;
    while i < cs.len()
        invariant
            i <= cs.len(),
            component_views(out@) == component_views(cs@.take(i as int)),
        decreases cs.len() - i,
    {
        let ghost before = component_views(out@);
        out.push((String::from_str(cs[i].0.as_str()), cs[i].1));
        assert(component_views(out@) =~= before.push((cs@[i as int].0@, cs@[i as int].1)));
        assert(component_views(cs@.take(i + 1)) =~= component_views(cs@.take(i as int)).push(
            (cs@[i as int].0@, cs@[i as int].1),
        ));
        i += 1;
    }
    assert(cs@.take(cs.len() as int) =~= cs@);
    out
}

fn copy_keys(ks: &Vec<String>) -> (r: Vec<String>)
    ensures
        string_views(r@) == string_views(ks@),
{
    let mut out: Vec<String> = Vec::new();
    let mut i: usize = 0;
    while i < ks.len()
        invariant
            i <= ks.len(),
            string_views(out@) == string_views(ks@.take(i as int)),
        decreases ks.len() - i,
    {
        let ghost before = string_views(out@);
        out.push(String::from_str(ks[i].as_str()));
        assert(string_views(out@) =~= before.push(ks@[i as int]@));
        assert(string_views(ks@.take(i + 1)) =~= string_views(ks@.take(i as int)).push(ks@[i as int]@));
        i += 1;
    }
    assert(ks@.take(ks.len() as int) =~= ks@);
    out
}

/// The text of an optional string slice.
pub open spec fn opt_str_text(o: Option<&str>) -> Option<Seq<char>> {
    match o {
        Some(s) => Some(s@),
        None => None,
    }
}

/// Whether an optional text is absent or blank.
pub open spec fn blank(o: Option<Seq<char>>) -> bool {
    match o {
        Some(s) => trim(s).len() == 0,
        None => true,
    }
}

/// The theme's name: the one `theme.toml` gives, else the directory's.
pub open spec fn meta_name_of(meta: ThemeMeta, dir_name: Option<Seq<char>>) -> Option<Seq<char>> {
    if blank(opt_text(meta.name)) {
        dir_name
    } else {
        opt_text(meta.name)
    }
}

/// The components that are on, in order.
pub open spec fn enabled_of(cs: Seq<(String, bool)>) -> Seq<Seq<char>>
    decreases cs.len(),
{
    if cs.len() == 0 {
        Seq::<Seq<char>>::empty()
    } else if cs.last().1 {
        enabled_of(cs.drop_last()).push(cs.last().0@)
    } else {
        enabled_of(cs.drop_last())
    }
}

/// The errors for the components in `names` that the library `lib` does
/// not appear to export.
pub open spec fn export_errors(names: Seq<Seq<char>>, lib: Seq<char>) -> Seq<Seq<char>>
    decreases names.len(),
{
    if names.len() == 0 {
        Seq::<Seq<char>>::empty()
    } else {
        let c = names.last();
        let prior = export_errors(names.drop_last(), lib);
        if exported_of(lib, export_name_of(c)) {
            prior
        } else {
            prior.push(
                "theme declares component `"@ + c
                    + "` but templates/components/lib.typ does not appear to export `"@
                    + export_name_of(c) + "`"@,
            )
        }
    }
}

/// The templates directory of a theme.
pub open spec fn templates_dir_of(root: Seq<char>) -> Seq<char> {
    join_path_of(root, "templates"@)
}

/// The components directory of a theme.
pub open spec fn components_dir_of(root: Seq<char>) -> Seq<char> {
    join_path_of(templates_dir_of(root), "components"@)
}

/// The components entry point of a theme.
pub open spec fn entry_of(root: Seq<char>) -> Seq<char> {
    join_path_of(components_dir_of(root), "lib.typ"@)
}

/// The error for a missing version.
pub open spec fn version_errors(m: ThemeMeta) -> Seq<Seq<char>> {
    if blank(opt_text(m.version)) {
        seq!["theme.toml is missing version"@]
    } else {
        Seq::<Seq<char>>::empty()
    }
}

/// The error for a typage version below the theme's minimum.
pub open spec fn min_errors(m: ThemeMeta, current: Seq<char>) -> Seq<Seq<char>> {
    match m.min_typage {
        Some(v) => if version_before(version_tuple_of(current), version_tuple_of(v@)) {
            seq!["theme requires typage >= "@ + v@ + ", current is "@ + current]
        } else {
            Seq::<Seq<char>>::empty()
        },
        None => Seq::<Seq<char>>::empty(),
    }
}

/// The error for a missing templates directory.
pub open spec fn templates_errors(root: Seq<char>, facts: ThemeFacts) -> Seq<Seq<char>> {
    if !facts.templates_exist {
        seq!["theme templates dir is missing: "@ + templates_dir_of(root)]
    } else {
        Seq::<Seq<char>>::empty()
    }
}

/// The errors about components: a missing directory, a missing entry
/// point, an unreadable entry point, or each enabled component the entry
/// point does not export.
pub open spec fn component_errors(root: Seq<char>, m: ThemeMeta, facts: ThemeFacts) -> Seq<Seq<char>> {
    if !facts.components_exist {
        seq!["theme components dir is missing: "@ + components_dir_of(root)]
    } else if !facts.entry_exists {
        seq!["theme components entrypoint is missing: "@ + entry_of(root)]
    } else {
        match facts.lib {
            Ok(lib) => export_errors(enabled_of(m.components@), lib@),
            Err(e) => seq!["failed to read "@ + entry_of(root) + ": "@ + e@],
        }
    }
}

/// The errors of a theme whose metadata `m` was read, in order.
pub open spec fn meta_errors(root: Seq<char>, current: Seq<char>, m: ThemeMeta, facts: ThemeFacts) -> Seq<
    Seq<char>,
> {
    version_errors(m) + min_errors(m, current) + templates_errors(root, facts) + component_errors(
        root,
        m,
        facts,
    )
}

/// The errors of a theme's report.
pub open spec fn theme_errors_of(root: Seq<char>, current: Seq<char>, facts: ThemeFacts) -> Seq<
    Seq<char>,
> {
    if !facts.dir_exists {
        seq!["theme directory is missing: "@ + root]
    } else {
        match facts.meta {
            Err(e) => seq!["theme metadata is missing or invalid: "@ + e@],
            Ok(m) => meta_errors(root, current, m, facts),
        }
    }
}

/// The warning for a name that differs from the expected one.
pub open spec fn name_warnings(name: Option<Seq<char>>, expected: Option<Seq<char>>) -> Seq<Seq<char>> {
    match expected {
        Some(e) => if name != Some(e) {
            seq!["theme.toml name "@ + debug_opt(name) + " differs from directory name "@ + debug_str(e)]
        } else {
            Seq::<Seq<char>>::empty()
        },
        None => Seq::<Seq<char>>::empty(),
    }
}

/// The warning for a missing `min_typage`.
pub open spec fn min_warnings(m: ThemeMeta) -> Seq<Seq<char>> {
    if m.min_typage is None {
        seq!["theme.toml does not specify min_typage"@]
    } else {
        Seq::<Seq<char>>::empty()
    }
}

/// The warning for a missing static directory.
pub open spec fn static_warnings(root: Seq<char>, facts: ThemeFacts) -> Seq<Seq<char>> {
    if !facts.static_exists {
        seq!["theme static dir is missing: "@ + join_path_of(root, "static"@)]
    } else {
        Seq::<Seq<char>>::empty()
    }
}

/// The warnings of a theme's report, in order: a name that differs from
/// the expected one, a missing `min_typage`, a missing static directory.
pub open spec fn theme_warnings_of(
    root: Seq<char>,
    dir_name: Option<Seq<char>>,
    expected: Option<Seq<char>>,
    facts: ThemeFacts,
) -> Seq<Seq<char>> {
    if !facts.dir_exists {
        Seq::<Seq<char>>::empty()
    } else {
        match facts.meta {
            Err(_) => Seq::<Seq<char>>::empty(),
            Ok(m) => name_warnings(meta_name_of(m, dir_name), expected) + min_warnings(m)
                + static_warnings(root, facts),
        }
    }
}

/// The name a report starts with: the expected name, else the directory's,
/// else `theme`.
pub open spec fn first_name_of(dir_name: Option<Seq<char>>, expected: Option<Seq<char>>) -> Seq<char> {
    match expected {
        Some(e) => e,
        None => match dir_name {
            Some(d) => d,
            None => "theme"@,
        },
    }
}

/// The name a report gives a theme: the name its metadata gives (the
/// directory's when blank), else the name it started with.
pub open spec fn report_name_of(
    dir_name: Option<Seq<char>>,
    expected: Option<Seq<char>>,
    facts: ThemeFacts,
) -> Seq<char> {
    if !facts.dir_exists {
        first_name_of(dir_name, expected)
    } else {
        match facts.meta {
            Err(_) => first_name_of(dir_name, expected),
            Ok(m) => match meta_name_of(m, dir_name) {
                Some(n) => n,
                None => first_name_of(dir_name, expected),
            },
        }
    }
}

fn opt_copy(o: &Option<String>) -> (r: Option<String>)
    ensures
        opt_text(r) == opt_text(*o),
{
    match o {
        Some(s) => Some(String::from_str(s.as_str())),
        None => None,
    }
}

fn is_blank(o: &Option<String>) -> (r: bool)
    ensures
        r == blank(opt_text(*o)),
{
    match o {
        Some(s) => trim_vec(&chars_of(s.as_str())).len() == 0,
        None => true,
    }
}

/// The components that are on, in order.
pub fn enabled_components(meta: &ThemeMeta) -> (r: Vec<String>)
    ensures
        string_views(r@) == enabled_of(meta.components@),
{
    let ghost cs = meta.components@;
    let mut out: Vec<String> = Vec::new();
    let mut i: usize = 0;
    while i < meta.components.len()
        invariant
            i <= meta.components.len(),
            cs == meta.components@,
            string_views(out@) == enabled_of(cs.take(i as int)),
        decreases meta.components.len() - i,
    {
        assert(cs.take(i + 1).drop_last() =~= cs.take(i as int));
        assert(cs.take(i + 1).last() == cs[i as int]);
        if meta.components[i].1 {
            let ghost before = string_views(out@);
            out.push(String::from_str(meta.components[i].0.as_str()));
            assert(string_views(out@) =~= before.push(cs[i as int].0@));
        }
        i += 1;
    }
    assert(cs.take(meta.components.len() as int) =~= cs);
    out
}

/// Appends the errors for the enabled components that `lib` does not
/// appear to export.
fn push_export_errors(errors: &mut Vec<String>, names: &Vec<String>, lib: &str)
    ensures
        string_views(final(errors)@) == string_views(old(errors)@) + export_errors(
            string_views(names@),
            lib@,
        ),
{
    let ghost nv = string_views(names@);
    let ghost e0 = string_views(errors@);
    let mut i: usize = 0;
    assert(e0 =~= e0 + Seq::<Seq<char>>::empty());
    while i < names.len()
        invariant
            i <= names.len(),
            nv == string_views(names@),
            e0 == string_views(old(errors)@),
            string_views(errors@) == e0 + export_errors(nv.take(i as int), lib@),
        decreases names.len() - i,
    {
        assert(nv.take(i + 1).drop_last() =~= nv.take(i as int));
        assert(nv.take(i + 1).last() == names@[i as int]@);
        let c = names[i].as_str();
        let export = component_name_to_export(c);
        if !component_exported(lib, export.as_str()) {
            let ghost before = string_views(errors@);
            let mut m = String::from_str("theme declares component `");
            m.append(c);
            m.append("` but templates/components/lib.typ does not appear to export `");
            m.append(export.as_str());
            m.append("`");
            errors.push(m);
            assert(string_views(errors@) =~= before.push(m@));
        }
        i += 1;
    }
    assert(nv.take(names.len() as int) =~= nv);
}

fn name_warning_list(name: &Option<String>, expected: Option<&str>) -> (r: Vec<String>)
    ensures
        string_views(r@) == name_warnings(opt_text(*name), opt_str_text(expected)),
{
    let mut warnings: Vec<String> = Vec::new();
    match expected {
        Some(e) => {
            let same = match name {
                Some(n) => crate::text::vec_eq(&chars_of(n.as_str()), &chars_of(e)),
                None => false,
            };
            if !same {
                let mut m = String::from_str("theme.toml name ");
                match name {
                    Some(n) => {
                        m.append("Some(");
                        m.append(debug_text(n.as_str()).as_str());
                        m.append(")");
                    },
                    None => m.append("None"),
                }
                m.append(" differs from directory name ");
                m.append(debug_text(e).as_str());
                assert(m@ =~= "theme.toml name "@ + debug_opt(opt_text(*name))
                    + " differs from directory name "@ + debug_str(e@));
                warnings.push(m);
                assert(string_views(warnings@) =~= seq![m@]);
            } else {
                assert(string_views(warnings@) =~= Seq::<Seq<char>>::empty());
            }
        },
        None => {
            assert(string_views(warnings@) =~= Seq::<Seq<char>>::empty());
        },
    }
    warnings
}

fn push_min_warning(warnings: &mut Vec<String>, m: &ThemeMeta)
    ensures
        string_views(final(warnings)@) == string_views(old(warnings)@) + min_warnings(*m),
{
    if m.min_typage.is_none() {
        let ghost before = string_views(warnings@);
        let w = String::from_str("theme.toml does not specify min_typage");
        warnings.push(w);
        assert(string_views(warnings@) =~= before + seq![w@]);
    } else {
        assert(string_views(warnings@) =~= string_views(warnings@) + Seq::<Seq<char>>::empty());
    }
}

fn push_static_warning(warnings: &mut Vec<String>, root: &str, facts: &ThemeFacts)
    ensures
        string_views(final(warnings)@) == string_views(old(warnings)@) + static_warnings(root@, *facts),
{
    if !facts.static_exists {
        let ghost before = string_views(warnings@);
        let mut w = String::from_str("theme static dir is missing: ");
        w.append(join_path(root, "static").as_str());
        warnings.push(w);
        assert(string_views(warnings@) =~= before + seq![w@]);
    } else {
        assert(string_views(warnings@) =~= string_views(warnings@) + Seq::<Seq<char>>::empty());
    }
}

/// Appends `m` to `errors`.
fn push_error(errors: &mut Vec<String>, m: String)
    ensures
        string_views(final(errors)@) == string_views(old(errors)@) + seq![m@],
{
    let ghost before = string_views(errors@);
    errors.push(m);
    assert(string_views(errors@) =~= before + seq![m@]);
}

fn meta_error_list(root: &str, current: &str, fm: &ThemeMeta, facts: &ThemeFacts) -> (r: Vec<String>)
    ensures
        string_views(r@) == meta_errors(root@, current@, *fm, *facts),
{
    let mut errors: Vec<String> = Vec::new();
    if is_blank(&fm.version) {
        push_error(&mut errors, String::from_str("theme.toml is missing version"));
    }
    assert(string_views(errors@) =~= version_errors(*fm));
    let ghost e1 = string_views(errors@);
    match &fm.min_typage {
        Some(v) => {
            if version_lt(current, v.as_str()) {
                let mut m = String::from_str("theme requires typage >= ");
                m.append(v.as_str());
                m.append(", current is ");
                m.append(current);
                push_error(&mut errors, m);
            } else {
                assert(string_views(errors@) =~= e1 + Seq::<Seq<char>>::empty());
            }
        },
        None => {
            assert(string_views(errors@) =~= e1 + Seq::<Seq<char>>::empty());
        },
    }
    assert(string_views(errors@) =~= e1 + min_errors(*fm, current@));
    let ghost e2 = string_views(errors@);
    let templates = join_path(root, "templates");
    let components = join_path(templates.as_str(), "components");
    let entry = join_path(components.as_str(), "lib.typ");
    if !facts.templates_exist {
        let mut m = String::from_str("theme templates dir is missing: ");
        m.append(templates.as_str());
        push_error(&mut errors, m);
    } else {
        assert(string_views(errors@) =~= e2 + Seq::<Seq<char>>::empty());
    }
    assert(string_views(errors@) =~= e2 + templates_errors(root@, *facts));
    let ghost e3 = string_views(errors@);
    if !facts.components_exist {
        let mut m = String::from_str("theme components dir is missing: ");
        m.append(components.as_str());
        push_error(&mut errors, m);
    } else if !facts.entry_exists {
        let mut m = String::from_str("theme components entrypoint is missing: ");
        m.append(entry.as_str());
        push_error(&mut errors, m);
    } else {
        match &facts.lib {
            Ok(lib) => {
                let names = enabled_components(fm);
                push_export_errors(&mut errors, &names, lib.as_str());
            },
            Err(e) => {
                let mut m = String::from_str("failed to read ");
                m.append(entry.as_str());
                m.append(": ");
                m.append(e.as_str());
                push_error(&mut errors, m);
            },
        }
    }
    assert(string_views(errors@) =~= e3 + component_errors(root@, *fm, *facts));
    errors
}

/// The report on the theme at `theme_root`, whose directory is named
/// `dir_name` and is expected to be named `expected`, for typage version
/// `current_version`, from what was found on disk.
pub fn theme_report(
    theme_root: &str,
    dir_name: Option<&str>,
    expected: Option<&str>,
    current_version: &str,
    facts: &ThemeFacts,
) -> (r: ThemeReport)
    ensures
        r.name@ == report_name_of(opt_str_text(dir_name), opt_str_text(expected), *facts),
        r.path@ == theme_root@,
        string_views(r.errors@) == theme_errors_of(theme_root@, current_version@, *facts),
        string_views(r.warnings@) == theme_warnings_of(
            theme_root@,
            opt_str_text(dir_name),
            opt_str_text(expected),
            *facts,
        ),
        match r.meta {
            Some(m) => facts.dir_exists && (facts.meta matches Ok(fm) && opt_text(m.name)
                == meta_name_of(fm, opt_str_text(dir_name)) && meta_view(m) == meta_view(fm)),
            None => !facts.dir_exists || facts.meta is Err,
        },
{
    let first = match expected {
        Some(e) => String::from_str(e),
        None => match dir_name {
            Some(d) => String::from_str(d),
            None => String::from_str("theme"),
        },
    };
    if !facts.dir_exists {
        let mut errors: Vec<String> = Vec::new();
        let warnings: Vec<String> = Vec::new();
        let mut m = String::from_str("theme directory is missing: ");
        m.append(theme_root);
        errors.push(m);
        assert(string_views(errors@) =~= seq![m@]);
        assert(string_views(warnings@) =~= Seq::<Seq<char>>::empty());
        return ThemeReport { name: first, path: String::from_str(theme_root), meta: None, errors, warnings };
    }
    let fm = match &facts.meta {
        Err(e) => {
            let mut errors: Vec<String> = Vec::new();
            let warnings: Vec<String> = Vec::new();
            let mut m = String::from_str("theme metadata is missing or invalid: ");
            m.append(e.as_str());
            errors.push(m);
            assert(string_views(errors@) =~= seq![m@]);
            assert(string_views(warnings@) =~= Seq::<Seq<char>>::empty());
            return ThemeReport {
                name: first,
                path: String::from_str(theme_root),
                meta: None,
                errors,
                warnings,
            };
        },
        Ok(m) => m,
    };
    let name: Option<String> = if is_blank(&fm.name) {
        match dir_name {
            Some(d) => Some(String::from_str(d)),
            None => None,
        }
    } else {
        opt_copy(&fm.name)
    };
    assert(opt_text(name) == meta_name_of(*fm, opt_str_text(dir_name)));
    let mut warnings = name_warning_list(&name, expected);
    push_min_warning(&mut warnings, fm);
    push_static_warning(&mut warnings, theme_root, facts);
    let errors = meta_error_list(theme_root, current_version, fm, facts);
    assert(string_views(warnings@) =~= name_warnings(opt_text(name), opt_str_text(expected))
        + min_warnings(*fm) + static_warnings(theme_root@, *facts));
    let report_name = match &name {
        Some(n) => String::from_str(n.as_str()),
        None => first,
    };
    let meta = ThemeMeta {
        name,
        version: opt_copy(&fm.version),
        description: opt_copy(&fm.description),
        min_typage: opt_copy(&fm.min_typage),
        components: copy_components(&fm.components),
        extra_keys: copy_keys(&fm.extra_keys),
    };
    ThemeReport { name: report_name, path: String::from_str(theme_root), meta: Some(meta), errors, warnings }
}

} // verus!
