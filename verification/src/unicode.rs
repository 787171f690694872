//! Unicode character properties taken from std.
//!
//! The alphanumeric class and the lowercase mapping are defined by the
//! Unicode tables that std carries; they get names here, and their
//! contracts state what std's documentation gives for ASCII characters.
use vstd::prelude::*;

use crate::text::{ascii_lower, is_ascii_alnum, is_ascii_lower, is_ascii_upper};

verus! {

/// Whether `c` is alphabetic or numeric in Unicode (what
/// `char::is_alphanumeric` returns).
pub uninterp spec fn alphanumeric(c: char) -> bool;

/// Whether `c` is alphabetic in Unicode (what `char::is_alphabetic`
/// returns).
pub uninterp spec fn alphabetic(c: char) -> bool;

/// The lowercase mapping of `c` in Unicode (what `char::to_lowercase` yields).
pub uninterp spec fn lowercase(c: char) -> Seq<char>;

/// `char::is_alphanumeric`. The result is the named property `alphanumeric`;
/// for ASCII characters it is the ASCII letters and digits, as std documents.
/// Which non-ASCII characters are alphanumeric is left unsaid: it follows the
/// Unicode tables of the std version in use.
#[verifier::external_body]
pub fn is_alphanumeric(c: char) -> (r: bool)
    ensures
        r == alphanumeric(c),
        (c as u32) < 128 ==> (r == is_ascii_alnum(c)),
{
    c.is_alphanumeric()
}

/// `char::is_alphabetic`. The result is the named property `alphabetic`;
/// for ASCII characters it is the ASCII letters, as std documents. Which
/// non-ASCII characters are alphabetic is left unsaid: it follows the
/// Unicode tables of the std version in use.
#[verifier::external_body]
pub fn is_alphabetic(c: char) -> (r: bool)
    ensures
        r == alphabetic(c),
        (c as u32) < 128 ==> (r == (is_ascii_upper(c) || is_ascii_lower(c))),
{
    c.is_alphabetic()
}

/// `char::to_lowercase`, collected. The result is the named mapping
/// `lowercase`; for ASCII characters it is the single ASCII lowercase
/// character, as std documents. The mapping of other characters follows the
/// Unicode tables of the std version in use and is left unsaid.
#[verifier::external_body]
pub fn to_lowercase(c: char) -> (r: Vec<char>)
    ensures
        r@ == lowercase(c),
        (c as u32) < 128 ==> r@ == seq![ascii_lower(c)],
{
    c.to_lowercase().collect()
}

} // verus!
