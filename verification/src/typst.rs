//! Facts read from Typst itself: the version that `typst --version` reports.
use vstd::prelude::*;

use crate::text::{chars_of, digit_prefix, digit_prefix_vec, digits_to_u64, digits_value, split_char, split_char_vec, subvec, views, ws_words, ws_words_vec};

verus! {

/// The number at the start of a version component: its leading ASCII
/// digits, when there is at least one and the value fits in a `u64`.
pub open spec fn version_component(s: Seq<char>) -> Option<u64> {
    let d = digit_prefix(s);
    if d.len() == 0 {
        None
    } else if digits_value(d) <= u64::MAX {
        Some(digits_value(d) as u64)
    } else {
        None
    }
}

/// The version a word states: an optional leading `v`, then three
/// `.`-separated components, each starting with digits.
pub open spec fn token_version(tok: Seq<char>) -> Option<(u64, u64, u64)> {
    let t = if tok.len() > 0 && tok[0] == 'v' {
        tok.drop_first()
    } else {
        tok
    };
    let parts = split_char(t, '.');
    if parts.len() < 3 {
        None
    } else {
        match (
            version_component(parts[0]),
            version_component(parts[1]),
            version_component(parts[2]),
        ) {
            (Some(a), Some(b), Some(c)) => Some((a, b, c)),
            _ => None,
        }
    }
}

/// The version stated by the first word that states one.
pub open spec fn first_version(words: Seq<Seq<char>>) -> Option<(u64, u64, u64)>
    decreases words.len(),
{
    if words.len() == 0 {
        None
    } else {
        match token_version(words[0]) {
            Some(v) => Some(v),
            None => first_version(words.drop_first()),
        }
    }
}

/// The version in the output of `typst --version`.
pub open spec fn reported_version(output: Seq<char>) -> Option<(u64, u64, u64)> {
    first_version(ws_words(output))
}

fn parse_version_component(component: &Vec<char>) -> (r: Option<u64>)
    ensures
        r == version_component(component@),
{
    let digits = digit_prefix_vec(component);
    if digits.len() == 0 {
        return None;
    }
    digits_to_u64(&digits)
}

fn parse_token_version(tok: &Vec<char>) -> (r: Option<(u64, u64, u64)>)
    ensures
        r == token_version(tok@),
{
    let t = if tok.len() > 0 && tok[0] == 'v' {
        let t = subvec(tok, 1, tok.len());
        assert(t@ =~= tok@.drop_first());
        t
    } else {
        subvec(tok, 0, tok.len())
    };
    assert(t@ =~= (if tok@.len() > 0 && tok@[0] == 'v' {
        tok@.drop_first()
    } else {
        tok@
    }));
    let parts = split_char_vec(&t, '.');
    if parts.len() < 3 {
        return None;
    }
    assert(views(parts@)[0] == parts@[0]@);
    assert(views(parts@)[1] == parts@[1]@);
    assert(views(parts@)[2] == parts@[2]@);
    let a = parse_version_component(&parts[0]);
    let b = parse_version_component(&parts[1]);
    let c = parse_version_component(&parts[2]);
    match (a, b, c) {
        (Some(a), Some(b), Some(c)) => Some((a, b, c)),
        _ => None,
    }
}

/// Reads the version from the output of `typst --version`, such as
/// `typst 0.15.0 (unknown commit)` or `typst v0.16.1-dev`.
pub fn parse_typst_version(output: &str) -> (r: Option<(u64, u64, u64)>)
    ensures
        r == reported_version(output@),
{
    let cs = chars_of(output);
    let words = ws_words_vec(&cs);
    let ghost wv = views(words@);
    let mut i: usize = 0;
    assert(wv.skip(0) =~= wv);
    while i < words.len()
        invariant
            i <= words.len(),
            wv == views(words@),
            wv == ws_words(output@),
            first_version(wv) == first_version(wv.skip(i as int)),
        decreases words.len() - i,
    {
        assert(wv.skip(i as int)[0] == words@[i as int]@);
        assert(wv.skip(i as int).drop_first() =~= wv.skip(i + 1));
        if let Some(v) = parse_token_version(&words[i]) {
            return Some(v);
        }
        i += 1;
    }
    assert(wv.skip(words.len() as int) =~= Seq::<Seq<char>>::empty());
    None
}

/// The oldest Typst release that this site generator supports.
pub open spec fn min_typst_version() -> (u64, u64, u64) {
    (0, 15, 0)
}

/// Whether version `a` comes before version `b`.
pub open spec fn version_before(a: (u64, u64, u64), b: (u64, u64, u64)) -> bool {
    a.0 < b.0 || (a.0 == b.0 && (a.1 < b.1 || (a.1 == b.1 && a.2 < b.2)))
}

/// Why the reported Typst version is not acceptable.
#[derive(Debug, Clone, Copy, PartialEq, Eq)]
pub enum TypstVersionError {
    /// The output states no version.
    Unparsable,
    /// The version comes before the minimum.
    TooOld,
}

/// Checks the output of `typst --version` against the minimum version.
pub fn check_typst_version(reported: &str) -> (r: Result<(u64, u64, u64), TypstVersionError>)
    ensures
        match reported_version(reported@) {
            None => r == Err::<(u64, u64, u64), TypstVersionError>(TypstVersionError::Unparsable),
            Some(v) => if version_before(v, min_typst_version()) {
                r == Err::<(u64, u64, u64), TypstVersionError>(TypstVersionError::TooOld)
            } else {
                r == Ok::<(u64, u64, u64), TypstVersionError>(v)
            },
        },
{
    match parse_typst_version(reported) {
        None => Err(TypstVersionError::Unparsable),
        Some(v) => {
            let (a, b, c) = v;
            if a < 0 || (a == 0 && (b < 15 || (b == 15 && c < 0))) {
                Err(TypstVersionError::TooOld)
            } else {
                Ok(v)
            }
        },
    }
}

} // verus!
