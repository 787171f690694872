//! Watching a site: the directories a watch looks at, and when a change
//! starts a rebuild.
use vstd::prelude::*;

use crate::paths::{join_path, join_path_of};
use crate::script::string_views;
use crate::text::{chars_of, trim, trim_vec};

verus! {

broadcast use vstd::string::group_string_axioms;

/// The least time between two rebuilds, in milliseconds; changes closer
/// to the last rebuild than this are let pass.
pub const REBUILD_GAP_MS: u64 = 250;

/// The theme directory to watch: `<root>/themes/<theme>` for a theme name
/// that is not blank.
pub open spec fn theme_dir_of(root: Seq<char>, theme: Option<Seq<char>>) -> Option<Seq<char>> {
    match theme {
        Some(t) => if trim(t).len() > 0 {
            Some(join_path_of(join_path_of(root, "themes"@), t))
        } else {
            None
        },
        None => None,
    }
}

/// The directories a watch looks at, in order: content, templates, static
/// files, then the theme when one is set.
pub open spec fn watch_dirs_of(
    root: Seq<char>,
    content_dir: Seq<char>,
    templates_dir: Seq<char>,
    static_dir: Seq<char>,
    theme: Option<Seq<char>>,
) -> Seq<Seq<char>> {
    let base = seq![
        join_path_of(root, content_dir),
        join_path_of(root, templates_dir),
        join_path_of(root, static_dir),
    ];
    match theme_dir_of(root, theme) {
        Some(d) => base.push(d),
        None => base,
    }
}

/// The text of an optional string slice.
pub open spec fn opt_view(o: Option<&str>) -> Option<Seq<char>> {
    match o {
        Some(s) => Some(s@),
        None => None,
    }
}

/// The directories a watch of the site at `root` looks at; those that do
/// not exist are left out by whoever sets up the watch.
pub fn watch_dirs(
    root: &str,
    content_dir: &str,
    templates_dir: &str,
    static_dir: &str,
    theme: Option<&str>,
) -> (r: Vec<String>)
    ensures
        string_views(r@) == watch_dirs_of(root@, content_dir@, templates_dir@, static_dir@, opt_view(theme)),
{
    let mut dirs: Vec<String> = Vec::new();
    dirs.push(join_path(root, content_dir));
    dirs.push(join_path(root, templates_dir));
    dirs.push(join_path(root, static_dir));
    let ghost base = string_views(dirs@);
    assert(base =~= seq![
        join_path_of(root@, content_dir@),
        join_path_of(root@, templates_dir@),
        join_path_of(root@, static_dir@),
    ]);
    match theme {
        Some(t) => {
            let tc = chars_of(t);
            let tt = trim_vec(&tc);
            if tt.len() > 0 {
                let themes = join_path(root, "themes");
                let d = join_path(themes.as_str(), t);
                dirs.push(d);
                assert(string_views(dirs@) =~= base.push(d@));
            }
        },
        None => {},
    }
    dirs
}

/// What a change seen at `now_ms` does, given the time of the last
/// rebuild: it rebuilds, and becomes the last rebuild, unless it comes less
/// than `REBUILD_GAP_MS` after the last one.
pub open spec fn change_outcome(last_ms: Option<u64>, now_ms: u64) -> (Option<u64>, bool) {
    match last_ms {
        Some(l) => if now_ms - l < REBUILD_GAP_MS {
            (Some(l), false)
        } else {
            (Some(now_ms), true)
        },
        None => (Some(now_ms), true),
    }
}

/// Decides whether a change seen at `now_ms` (on a clock that does not go
/// back) rebuilds the site; returns the new time of the last rebuild and
/// the decision.
pub fn on_change(last_ms: Option<u64>, now_ms: u64) -> (r: (Option<u64>, bool))
    requires
        last_ms matches Some(l) ==> l <= now_ms,
    ensures
        r == change_outcome(last_ms, now_ms),
{
    match last_ms {
        Some(l) => if now_ms - l < REBUILD_GAP_MS {
            (Some(l), false)
        } else {
            (Some(now_ms), true)
        },
        None => (Some(now_ms), true),
    }
}


/// The live-reload revision after a rebuild: one more when the build
/// succeeded (wrapping at the end of the `u64` range, as an atomic add
/// does), unchanged when it failed.
pub open spec fn revision_after(revision: u64, built: bool) -> u64 {
    if built {
        ((revision + 1) % 0x1_0000_0000_0000_0000) as u64
    } else {
        revision
    }
}

/// The live-reload revision after a rebuild that succeeded or not.
pub fn next_revision(revision: u64, built: bool) -> (r: u64)
    ensures
        r == revision_after(revision, built),
{
    if built {
        if revision == u64::MAX {
            0
        } else {
            revision + 1
        }
    } else {
        revision
    }
}

/// The state of a live-rebuild loop after the changes `events`, each the
/// time it was seen and whether the build it would start succeeds: the
/// time of the last rebuild and the revision. A change too close to the
/// last rebuild starts none and leaves the revision alone; a rebuild
/// raises it only when it succeeds.
pub open spec fn live_run(last_ms: Option<u64>, revision: u64, events: Seq<(u64, bool)>) -> (
    Option<u64>,
    u64,
)
    decreases events.len(),
{
    if events.len() == 0 {
        (last_ms, revision)
    } else {
        let (last, rev) = live_run(last_ms, revision, events.drop_last());
        let (t, ok) = events.last();
        let (next, rebuild) = change_outcome(last, t);
        (next, revision_after(rev, rebuild && ok))
    }
}

/// How many of the changes `events` start a rebuild that succeeds.
pub open spec fn successful_rebuilds(last_ms: Option<u64>, revision: u64, events: Seq<(u64, bool)>) -> nat
    decreases events.len(),
{
    if events.len() == 0 {
        0
    } else {
        let prior = successful_rebuilds(last_ms, revision, events.drop_last());
        let (last, _) = live_run(last_ms, revision, events.drop_last());
        let (t, ok) = events.last();
        if change_outcome(last, t).1 && ok {
            prior + 1
        } else {
            prior
        }
    }
}

} // verus!
