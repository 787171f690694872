//! Small pieces of page text and Typst source: excerpts, headings, source
//! positions, identifiers and the Typst values of links and tables of
//! contents.
use vstd::prelude::*;

use crate::model::TocItem;
use crate::script::string_views;
use crate::text::{
    chars_of, is_ascii_digit, is_ascii_lower, is_ascii_upper, push_char, push_chars, string_of, trim,
    trim_start, trim_start_vec, trim_vec,
};
use crate::unicode::{alphabetic, is_alphabetic};
use crate::url::{decimal, usize_to_decimal};
use crate::util::{typst_string, typst_string_of, typst_tuple, typst_tuple_of};

verus! {

broadcast use vstd::string::group_string_axioms;

// ---------------------------------------------------------------------------
// Excerpts
// ---------------------------------------------------------------------------

/// The first `max_chars` characters of a text (all of it when shorter).
pub open spec fn truncated(text: Seq<char>, max_chars: nat) -> Seq<char> {
    if text.len() <= max_chars {
        text
    } else {
        text.take(max_chars as int)
    }
}

/// The first `max_chars` characters of a text.
pub fn truncate_chars(text: &str, max_chars: usize) -> (r: String)
    ensures
        r@ == truncated(text@, max_chars as nat),
{
    if max_chars == 0 {
        return String::new();
    }
    let cs = chars_of(text);
    let mut out = String::new();
    let mut i: usize = 0;
    while i < cs.len() && i < max_chars
        invariant
            i <= cs@.len(),
            i <= max_chars,
            out@ == cs@.take(i as int),
        decreases cs.len() - i,
    {
        push_char(&mut out, cs[i]);
        assert(cs@.take(i + 1) =~= cs@.take(i as int).push(cs@[i as int]));
        i += 1;
    }
    if i == cs.len() {
        assert(cs@.take(i as int) =~= cs@);
    }
    out
}

/// An excerpt: the first `max_chars` characters, trimmed.
pub fn make_excerpt(text: &str, max_chars: usize) -> (r: String)
    ensures
        r@ == trim(truncated(text@, max_chars as nat)),
{
    let t = truncate_chars(text, max_chars);
    string_of(&trim_vec(&chars_of(t.as_str())))
}

/// A TOML basic string: the text in double quotes with backslashes,
/// quotes, newlines, carriage returns and tabs escaped (the escapes of a
/// Typst string).
pub fn toml_string(s: &str) -> (r: String)
    ensures
        r@ == typst_string_of(s@),
{
    typst_string(s)
}

// ---------------------------------------------------------------------------
// Headings
// ---------------------------------------------------------------------------

/// Whether a character is inline markup a heading's text drops.
pub open spec fn is_inline_markup(c: char) -> bool {
    c == '`' || c == '*' || c == '_'
}

/// Text without inline markup characters, trimmed.
pub open spec fn stripped_markup(s: Seq<char>) -> Seq<char> {
    trim(s.filter(|c: char| !is_inline_markup(c)))
}

/// Text without its inline markup characters (backticks, asterisks,
/// underscores), trimmed.
pub fn strip_inline_markup(s: &str) -> (r: String)
    ensures
        r@ == stripped_markup(s@),
{
    let cs = chars_of(s);
    let mut kept: Vec<char> = Vec::new();
    let mut i: usize = 0;
    while i < cs.len()
        invariant
            i <= cs@.len(),
            kept@ == cs@.take(i as int).filter(|c: char| !is_inline_markup(c)),
        decreases cs.len() - i,
    {
        assert(cs@.take(i + 1).drop_last() =~= cs@.take(i as int));
        assert(cs@.take(i + 1).last() == cs@[i as int]);
        reveal_with_fuel(vstd::seq::Seq::filter, 1);
        if !(cs[i] == '`' || cs[i] == '*' || cs[i] == '_') {
            kept.push(cs[i]);
        }
        i += 1;
    }
    assert(cs@.take(cs@.len() as int) =~= cs@);
    string_of(&trim_vec(&kept))
}

/// How many `=` a text starts with.
pub open spec fn equals_run(s: Seq<char>) -> nat
    decreases s.len(),
{
    if s.len() > 0 && s[0] == '=' {
        1 + equals_run(s.drop_first())
    } else {
        0
    }
}

/// A Typst heading line: its level (the run of `=` it starts with, after
/// indentation, from 1 to 6) and its text (what follows, without inline
/// markup); none for a line that is no heading or has no text.
pub open spec fn heading_of(line: Seq<char>) -> Option<(nat, Seq<char>)> {
    let t = trim_start(line);
    let level = equals_run(t);
    let rest = trim_start(t.skip(level as int));
    if level == 0 || level > 6 || rest.len() == 0 || rest[0] == '=' {
        None
    } else {
        Some((level, stripped_markup(rest)))
    }
}

proof fn lemma_equals_run_bound(s: Seq<char>)
    ensures
        equals_run(s) <= s.len(),
        forall|k: int| 0 <= k < equals_run(s) ==> s[k] == '=',
        equals_run(s) < s.len() ==> s[equals_run(s) as int] != '=',
    decreases s.len(),
{
    if s.len() > 0 && s[0] == '=' {
        lemma_equals_run_bound(s.drop_first());
        assert forall|k: int| 0 <= k < equals_run(s) implies s[k] == '=' by {
            if k > 0 {
                assert(s[k] == s.drop_first()[k - 1]);
            }
        }
        if equals_run(s) < s.len() {
            assert(s[equals_run(s) as int] == s.drop_first()[equals_run(s) - 1]);
        }
    }
}

proof fn lemma_equals_run_is(s: Seq<char>, n: int)
    requires
        0 <= n <= s.len(),
        forall|k: int| 0 <= k < n ==> s[k] == '=',
        n == s.len() || s[n] != '=',
    ensures
        equals_run(s) == n,
    decreases n,
{
    if n > 0 {
        assert forall|k: int| 0 <= k < n - 1 implies s.drop_first()[k] == '=' by {
            assert(s.drop_first()[k] == s[k + 1]);
        }
        if n < s.len() {
            assert(s.drop_first()[n - 1] == s[n]);
        }
        lemma_equals_run_is(s.drop_first(), n - 1);
    }
}

/// The level and text of a Typst heading line.
pub fn parse_heading(line: &str) -> (r: Option<(usize, String)>)
    ensures
        match r {
            Some((level, text)) => heading_of(line@) == Some((level as nat, text@)),
            None => heading_of(line@) is None,
        },
{
    let t = trim_start_vec(&chars_of(line));
    let mut level: usize = 0;
    while level < t.len() && t[level] == '='
        invariant
            level <= t@.len(),
            forall|k: int| 0 <= k < level ==> t@[k] == '=',
        decreases t.len() - level,
    {
        level += 1;
    }
    proof {
        lemma_equals_run_is(t@, level as int);
    }
    if level == 0 || level > 6 {
        return None;
    }
    let mut after: Vec<char> = Vec::new();
    let mut i: usize = level;
    while i < t.len()
        invariant
            level <= i <= t@.len(),
            after@ == t@.subrange(level as int, i as int),
        decreases t.len() - i,
    {
        after.push(t[i]);
        assert(after@ =~= t@.subrange(level as int, i + 1));
        i += 1;
    }
    assert(after@ =~= t@.skip(level as int));
    let rest = trim_start_vec(&after);
    if rest.len() == 0 || rest[0] == '=' {
        return None;
    }
    let text = strip_inline_markup(string_of(&rest).as_str());
    Some((level, text))
}

// ---------------------------------------------------------------------------
// Source positions
// ---------------------------------------------------------------------------

/// How many bytes UTF-8 takes for a character.
pub open spec fn utf8_width(c: char) -> nat {
    let u = c as u32;
    if u < 0x80 {
        1
    } else if u < 0x800 {
        2
    } else if u < 0x10000 {
        3
    } else {
        4
    }
}

/// The line and column (both from 1) reached by walking the characters
/// `cs`, which start at byte `pos`, up to byte `offset`.
pub open spec fn walk_position(cs: Seq<char>, pos: nat, offset: nat, line: nat, column: nat) -> (nat, nat)
    decreases cs.len(),
{
    if cs.len() == 0 || pos >= offset {
        (line, column)
    } else if cs[0] == '\n' {
        walk_position(cs.drop_first(), pos + utf8_width(cs[0]), offset, line + 1, 1)
    } else {
        walk_position(cs.drop_first(), pos + utf8_width(cs[0]), offset, line, column + 1)
    }
}

/// The line and column (both from 1) of byte `offset` of a text: the
/// place after the characters that start before the offset.
pub open spec fn line_column_of(source: Seq<char>, offset: nat) -> (nat, nat) {
    walk_position(source, 0, offset, 1, 1)
}

fn char_width(c: char) -> (r: usize)
    ensures
        r as nat == utf8_width(c),
{
    let u = c as u32;
    if u < 0x80 {
        1
    } else if u < 0x800 {
        2
    } else if u < 0x10000 {
        3
    } else {
        4
    }
}

/// The line and column (both from 1) of byte `offset` of a text.
pub fn line_column(source: &str, offset: usize) -> (r: (usize, usize))
    requires
        source@.len() < usize::MAX,
    ensures
        (r.0 as nat, r.1 as nat) == line_column_of(source@, offset as nat),
{
    let cs = chars_of(source);
    let mut line: usize = 1;
    let mut column: usize = 1;
    let mut pos: usize = 0;
    let mut i: usize = 0;
    let ghost mut spos: nat = 0;
    assert(cs@.skip(0) =~= cs@);
    while i < cs.len()
        invariant
            i <= cs@.len(),
            cs@ == source@,
            cs@.len() < usize::MAX,
            line <= i + 1,
            column <= i + 1,
            pos as nat == (if spos <= usize::MAX {
                spos
            } else {
                usize::MAX as nat
            }),
            line_column_of(source@, offset as nat) == walk_position(
                cs@.skip(i as int),
                spos,
                offset as nat,
                line as nat,
                column as nat,
            ),
        ensures
            line_column_of(source@, offset as nat) == (line as nat, column as nat),
        decreases cs.len() - i,
    {
        if pos >= offset {
            assert(spos >= offset);
            assert(walk_position(cs@.skip(i as int), spos, offset as nat, line as nat, column as nat)
                == (line as nat, column as nat));
            break;
        }
        let c = cs[i];
        assert(cs@.skip(i as int)[0] == c);
        assert(cs@.skip(i as int).drop_first() =~= cs@.skip(i + 1));
        let w = char_width(c);
        proof {
            spos = spos + utf8_width(c);
        }
        pos = pos.saturating_add(w);
        if c == '\n' {
            line += 1;
            column = 1;
        } else {
            column += 1;
        }
        i += 1;
    }
    (line, column)
}

// ---------------------------------------------------------------------------
// Typst values
// ---------------------------------------------------------------------------

/// The character a key keeps in a Typst identifier at position `i`.
pub open spec fn ident_char(c: char, i: int) -> char {
    if c == '_' || is_ascii_upper(c) || is_ascii_lower(c) || (i > 0 && is_ascii_digit(c)) {
        c
    } else if (c as u32) >= 128 && alphabetic(c) {
        c
    } else {
        '_'
    }
}

/// A key as a Typst identifier: letters, underscores and (after the
/// first character) ASCII digits kept, anything else an underscore; an
/// underscore in front when that leaves nothing or a leading digit.
pub open spec fn typst_ident_of(key: Seq<char>) -> Seq<char> {
    let out = Seq::new(key.len(), |i: int| ident_char(key[i], i));
    if out.len() == 0 || is_ascii_digit(out[0]) {
        seq!['_'] + out
    } else {
        out
    }
}

/// A key as a Typst identifier.
pub fn typst_ident(key: &str) -> (r: String)
    ensures
        r@ == typst_ident_of(key@),
{
    let cs = chars_of(key);
    let mut out: Vec<char> = Vec::new();
    let mut i: usize = 0;
    while i < cs.len()
        invariant
            i <= cs@.len(),
            out@ == Seq::new(i as nat, |k: int| ident_char(cs@[k], k)),
        decreases cs.len() - i,
    {
        let ch = cs[i];
        let keep = if ch == '_' || ('A' <= ch && ch <= 'Z') || ('a' <= ch && ch <= 'z') || (i > 0 && '0'
            <= ch && ch <= '9') {
            ch
        } else if is_alphabetic(ch) {
            ch
        } else {
            '_'
        };
        out.push(keep);
        assert(out@ =~= Seq::new((i + 1) as nat, |k: int| ident_char(cs@[k], k)));
        i += 1;
    }
    let mut r = String::new();
    if out.len() == 0 || ('0' <= out[0] && out[0] <= '9') {
        push_char(&mut r, '_');
    }
    push_chars(&mut r, &out);
    assert(r@ =~= typst_ident_of(key@));
    r
}

/// The Typst value of a link to a neighbouring page: a dictionary of its
/// title and URL when both are known, else `none`.
pub open spec fn nav_dict_of(title: Option<Seq<char>>, url: Option<Seq<char>>) -> Seq<char> {
    match (title, url) {
        (Some(t), Some(u)) => "(title: "@ + typst_string_of(t) + ", url: "@ + typst_string_of(u) + ")"@,
        _ => "none"@,
    }
}

/// The Typst value of a link to a neighbouring page.
pub fn nav_dict(title: &Option<String>, url: &Option<String>) -> (r: String)
    ensures
        r@ == nav_dict_of(crate::model::opt_text(*title), crate::model::opt_text(*url)),
{
    match (title, url) {
        (Some(t), Some(u)) => {
            let mut r = String::new();
            push_chars(&mut r, &chars_of("(title: "));
            push_chars(&mut r, &chars_of(typst_string(t.as_str()).as_str()));
            push_chars(&mut r, &chars_of(", url: "));
            push_chars(&mut r, &chars_of(typst_string(u.as_str()).as_str()));
            push_chars(&mut r, &chars_of(")"));
            assert(r@ =~= nav_dict_of(Some(t@), Some(u@)));
            r
        },
        _ => String::from_str("none"),
    }
}

/// The Typst value of a table-of-contents entry.
pub open spec fn toc_item_of(item: TocItem) -> Seq<char> {
    "(level: "@ + decimal(item.level as nat) + ", id: "@ + typst_string_of(item.id@) + ", text: "@
        + typst_string_of(item.text@) + ")"@
}

/// The Typst value of a table of contents: a tuple of its entries.
pub open spec fn toc_array_of(toc: Seq<TocItem>) -> Seq<char> {
    typst_tuple_of(toc.map_values(|item: TocItem| toc_item_of(item)))
}

/// The Typst value of a table of contents.
pub fn toc_array(toc: &Vec<TocItem>) -> (r: String)
    ensures
        r@ == toc_array_of(toc@),
{
    let mut items: Vec<String> = Vec::new();
    let mut i: usize = 0;
    while i < toc.len()
        invariant
            i <= toc@.len(),
            string_views(items@) == toc@.take(i as int).map_values(|item: TocItem| toc_item_of(item)),
        decreases toc.len() - i,
    {
        let item = &toc[i];
        let mut s = String::new();
        push_chars(&mut s, &chars_of("(level: "));
        push_chars(&mut s, &usize_to_decimal(item.level));
        push_chars(&mut s, &chars_of(", id: "));
        push_chars(&mut s, &chars_of(typst_string(item.id.as_str()).as_str()));
        push_chars(&mut s, &chars_of(", text: "));
        push_chars(&mut s, &chars_of(typst_string(item.text.as_str()).as_str()));
        push_chars(&mut s, &chars_of(")"));
        assert(s@ =~= toc_item_of(*item));
        let ghost before = string_views(items@);
        items.push(s);
        assert(string_views(items@) =~= before.push(toc_item_of(toc@[i as int])));
        assert(toc@.take(i + 1).map_values(|item: TocItem| toc_item_of(item)) =~= toc@.take(
            i as int,
        ).map_values(|item: TocItem| toc_item_of(item)).push(toc_item_of(toc@[i as int])));
        i += 1;
    }
    assert(toc@.take(toc@.len() as int) =~= toc@);
    typst_tuple(items)
}


/// The source of a new page: a `page.with(..)` show rule with its title,
/// its date when given, `draft: true` for a draft, no tags, and a line of
/// placeholder text.
pub open spec fn new_page_source_of(title: Seq<char>, date: Option<Seq<char>>, draft: bool) -> Seq<
    char,
> {
    "#show: page.with(\n  title: "@ + typst_string_of(title) + ",\n"@ + match date {
        Some(d) => "  date: "@ + typst_string_of(d) + ",\n"@,
        None => Seq::<char>::empty(),
    } + if draft {
        "  draft: true,\n"@
    } else {
        Seq::<char>::empty()
    } + "  tags: (),\n)\n\nWrite your content here.\n"@
}

/// The source that `new page` writes for a page.
pub fn new_page_source(title: &str, date: Option<&str>, draft: bool) -> (r: String)
    ensures
        r@ == new_page_source_of(
            title@,
            match date {
                Some(d) => Some(d@),
                None => None,
            },
            draft,
        ),
{
    let mut s = String::from_str("#show: page.with(\n  title: ");
    s.append(typst_string(title).as_str());
    s.append(",\n");
    match date {
        Some(d) => {
            s.append("  date: ");
            s.append(typst_string(d).as_str());
            s.append(",\n");
        },
        None => {},
    }
    if draft {
        s.append("  draft: true,\n");
    }
    s.append("  tags: (),\n)\n\nWrite your content here.\n");
    s
}

} // verus!
