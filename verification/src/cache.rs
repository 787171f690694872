//! The build cache: whether a page can be skipped, and why not.
use vstd::prelude::*;

use crate::config::{keyed, keyed_map};
use crate::listing::find_keyed;
use crate::model::{BuildCache, CacheEntry, Page};
use crate::script::string_views;
use crate::text::{chars_of, push_chars, vec_eq};

verus! {

broadcast use vstd::string::group_string_axioms;

/// The files a build writes for `page`: its HTML, then its PDF when PDFs
/// are built.
pub fn page_outputs(page: &Page, pdf: bool) -> (r: Vec<String>)
    ensures
        string_views(r@) == (if pdf {
            seq![page.output_html@, page.output_pdf@]
        } else {
            seq![page.output_html@]
        }),
{
    let mut outputs: Vec<String> = Vec::new();
    outputs.push(String::from_str(page.output_html.as_str()));
    if pdf {
        outputs.push(String::from_str(page.output_pdf.as_str()));
    }
    assert(string_views(outputs@) =~= (if pdf {
        seq![page.output_html@, page.output_pdf@]
    } else {
        seq![page.output_html@]
    }));
    outputs
}

/// What a build finds at an output path.
#[derive(Debug, Clone, PartialEq, Eq)]
pub enum OutputState {
    /// A regular file.
    File,
    /// Something else: a directory, or a link that could lead outside.
    Other,
    /// Nothing.
    Missing,
    /// The path could not be inspected, for the reason given.
    Failed(String),
}

/// Whether a cached page can be skipped, and the reasons.
#[derive(Debug)]
pub struct CacheDecision {
    pub hit: bool,
    pub reasons: Vec<String>,
}

/// The entries of the cache by key.
pub open spec fn cache_map(cache: BuildCache) -> Map<Seq<char>, CacheEntry> {
    keyed_map(keyed(cache.entries@))
}

impl BuildCache {
    /// The entry for `key`.
    pub fn get(&self, key: &str) -> (r: Option<&CacheEntry>)
        ensures
            match r {
                Some(e) => cache_map(*self).contains_key(key@) && cache_map(*self)[key@] == *e,
                None => !cache_map(*self).contains_key(key@),
            },
    {
        let k = String::from_str(key);
        match find_keyed(&self.entries, &k) {
            Some(i) => Some(&self.entries[i].1),
            None => None,
        }
    }

    /// Records the entry for `key`, replacing any earlier one.
    pub fn insert(&mut self, key: String, entry: CacheEntry)
        ensures
            cache_map(*final(self)) == cache_map(*old(self)).insert(key@, entry),
    {
        let ghost before = keyed(self.entries@);
        self.entries.push((key, entry));
        assert(keyed(self.entries@).drop_last() =~= before);
    }
}

/// Why an output keeps a page from being skipped, if it does.
pub open spec fn output_reason(path: Seq<char>, state: OutputState) -> Option<Seq<char>> {
    match state {
        OutputState::File => None,
        OutputState::Other => Some("unsafe output path "@ + path),
        OutputState::Missing => Some("missing output "@ + path),
        OutputState::Failed(e) => Some("failed to inspect output "@ + path + ": "@ + e@),
    }
}

/// The reasons the outputs give, in order.
pub open spec fn output_reasons(outputs: Seq<(String, OutputState)>) -> Seq<Seq<char>>
    decreases outputs.len(),
{
    if outputs.len() == 0 {
        Seq::<Seq<char>>::empty()
    } else {
        let prev = output_reasons(outputs.drop_last());
        match output_reason(outputs.last().0@, outputs.last().1) {
            Some(r) => prev.push(r),
            None => prev,
        }
    }
}

/// Whether the page cached under `key` can be skipped, and why (not): a
/// forced build skips nothing; a page without an entry is built; else the
/// page is built when its hash changed or an output is no regular file,
/// and skipped when nothing speaks against it.
pub open spec fn decision_of(
    cache: BuildCache,
    key: Seq<char>,
    hash: Seq<char>,
    outputs: Seq<(String, OutputState)>,
    force: bool,
) -> (bool, Seq<Seq<char>>) {
    if force {
        (false, seq!["forced rebuild"@])
    } else if !cache_map(cache).contains_key(key) {
        (false, seq!["no cache entry"@])
    } else {
        let reasons = (if cache_map(cache)[key].hash@ != hash {
            seq!["hash changed"@]
        } else {
            Seq::<Seq<char>>::empty()
        }) + output_reasons(outputs);
        if reasons.len() == 0 {
            (true, seq!["cache hit"@])
        } else {
            (false, reasons)
        }
    }
}

fn one(s: &str) -> (r: Vec<String>)
    ensures
        string_views(r@) == seq![s@],
{
    let mut r: Vec<String> = Vec::new();
    r.push(String::from_str(s));
    assert(string_views(r@) =~= seq![s@]);
    r
}

/// Whether the page cached under `key` can be skipped, and why (not).
pub fn cache_decision(
    cache: &BuildCache,
    key: &str,
    hash: &str,
    outputs: &Vec<(String, OutputState)>,
    force: bool,
) -> (r: CacheDecision)
    ensures
        (r.hit, string_views(r.reasons@)) == decision_of(*cache, key@, hash@, outputs@, force),
{
    if force {
        return CacheDecision { hit: false, reasons: one("forced rebuild") };
    }
    let entry = match cache.get(key) {
        Some(e) => e,
        None => {
            return CacheDecision { hit: false, reasons: one("no cache entry") };
        },
    };
    let mut reasons: Vec<String> = Vec::new();
    if !vec_eq(&chars_of(entry.hash.as_str()), &chars_of(hash)) {
        reasons.push(String::from_str("hash changed"));
    }
    let ghost first = string_views(reasons@);
    assert(first =~= (if cache_map(*cache)[key@].hash@ != hash@ {
        seq!["hash changed"@]
    } else {
        Seq::<Seq<char>>::empty()
    }));
    let mut i: usize = 0;
    while i < outputs.len()
        invariant
            i <= outputs@.len(),
            string_views(reasons@) == first + output_reasons(outputs@.take(i as int)),
        decreases outputs.len() - i,
    {
        assert(outputs@.take(i + 1).drop_last() =~= outputs@.take(i as int));
        assert(outputs@.take(i + 1).last() == outputs@[i as int]);
        let path = &outputs[i].0;
        let ghost before = string_views(reasons@);
        match &outputs[i].1 {
            OutputState::File => {},
            OutputState::Other => {
                let mut m = String::new();
                push_chars(&mut m, &chars_of("unsafe output path "));
                push_chars(&mut m, &chars_of(path.as_str()));
                reasons.push(m);
                assert(string_views(reasons@) =~= before.push("unsafe output path "@ + path@));
            },
            OutputState::Missing => {
                let mut m = String::new();
                push_chars(&mut m, &chars_of("missing output "));
                push_chars(&mut m, &chars_of(path.as_str()));
                reasons.push(m);
                assert(string_views(reasons@) =~= before.push("missing output "@ + path@));
            },
            OutputState::Failed(e) => {
                let mut m = String::new();
                push_chars(&mut m, &chars_of("failed to inspect output "));
                push_chars(&mut m, &chars_of(path.as_str()));
                push_chars(&mut m, &chars_of(": "));
                push_chars(&mut m, &chars_of(e.as_str()));
                reasons.push(m);
                assert(string_views(reasons@) =~= before.push(
                    "failed to inspect output "@ + path@ + ": "@ + e@,
                ));
            },
        }
        i += 1;
    }
    assert(outputs@.take(outputs@.len() as int) =~= outputs@);
    if reasons.len() == 0 {
        CacheDecision { hit: true, reasons: one("cache hit") }
    } else {
        CacheDecision { hit: false, reasons }
    }
}

} // verus!
