//! Character escapes for the text formats the generator writes: YAML and
//! TOML/JSON paths, JSON strings and XML/HTML text.
use vstd::prelude::*;

use crate::text::{chars_of, push_char};

verus! {

broadcast use vstd::string::group_string_axioms;

/// A way of escaping text.
#[derive(Clone, Copy, PartialEq, Eq)]
pub enum Escape {
    /// Backslashes become `/` (a path written in YAML).
    YamlPath,
    /// Backslashes become `/` and double quotes become `\"` (a path in a
    /// TOML or JSON string).
    QuotedPath,
    /// Backslashes become `\\` and double quotes become `\"`.
    Json,
    /// `&`, `<`, `>`, `"` and `'` become XML entities.
    Xml,
}

/// How one character is written under an escape.
pub open spec fn escape_char(kind: Escape, c: char) -> Seq<char> {
    match kind {
        Escape::YamlPath => if c == '\\' {
            seq!['/']
        } else {
            seq![c]
        },
        Escape::QuotedPath => if c == '\\' {
            seq!['/']
        } else if c == '"' {
            seq!['\\', '"']
        } else {
            seq![c]
        },
        Escape::Json => if c == '\\' {
            seq!['\\', '\\']
        } else if c == '"' {
            seq!['\\', '"']
        } else {
            seq![c]
        },
        Escape::Xml => if c == '&' {
            seq!['&', 'a', 'm', 'p', ';']
        } else if c == '<' {
            seq!['&', 'l', 't', ';']
        } else if c == '>' {
            seq!['&', 'g', 't', ';']
        } else if c == '"' {
            seq!['&', 'q', 'u', 'o', 't', ';']
        } else if c == '\'' {
            seq!['&', 'a', 'p', 'o', 's', ';']
        } else {
            seq![c]
        },
    }
}

/// `s` with every character escaped.
pub open spec fn escaped(kind: Escape, s: Seq<char>) -> Seq<char>
    decreases s.len(),
{
    if s.len() == 0 {
        Seq::<char>::empty()
    } else {
        escaped(kind, s.drop_last()) + escape_char(kind, s.last())
    }
}

fn push_seq(out: &mut String, cs: &[char])
    ensures
        final(out)@ == old(out)@ + cs@,
{
    let ghost o = out@;
    let mut i: usize = 0;
    while i < cs.len()
        invariant
            i <= cs.len(),
            out@ == o + cs@.take(i as int),
        decreases cs.len() - i,
    {
        push_char(out, cs[i]);
        i += 1;
        assert(out@ =~= o + cs@.take(i as int));
    }
    assert(cs@.take(cs.len() as int) =~= cs@);
}

/// Appends the escape of `c` to `out`.
fn push_escaped_char(out: &mut String, kind: Escape, c: char)
    ensures
        final(out)@ == old(out)@ + escape_char(kind, c),
{
    let ghost o = out@;
    match kind {
        Escape::YamlPath => {
            if c == '\\' {
                push_char(out, '/');
            } else {
                push_char(out, c);
            }
        },
        Escape::QuotedPath => {
            if c == '\\' {
                push_char(out, '/');
            } else if c == '"' {
                push_char(out, '\\');
                push_char(out, '"');
            } else {
                push_char(out, c);
            }
        },
        Escape::Json => {
            if c == '\\' {
                push_char(out, '\\');
                push_char(out, '\\');
            } else if c == '"' {
                push_char(out, '\\');
                push_char(out, '"');
            } else {
                push_char(out, c);
            }
        },
        Escape::Xml => {
            if c == '&' {
                push_seq(out, &['&', 'a', 'm', 'p', ';']);
            } else if c == '<' {
                push_seq(out, &['&', 'l', 't', ';']);
            } else if c == '>' {
                push_seq(out, &['&', 'g', 't', ';']);
            } else if c == '"' {
                push_seq(out, &['&', 'q', 'u', 'o', 't', ';']);
            } else if c == '\'' {
                push_seq(out, &['&', 'a', 'p', 'o', 's', ';']);
            } else {
                push_char(out, c);
            }
        },
    }
    assert(out@ =~= o + escape_char(kind, c));
}

/// `s` with every character escaped.
pub fn escape(kind: Escape, s: &str) -> (r: String)
    ensures
        r@ == escaped(kind, s@),
{
    let cs = chars_of(s);
    let mut out = String::new();
    let mut i: usize = 0;
    while i < cs.len()
        invariant
            i <= cs.len(),
            out@ == escaped(kind, cs@.take(i as int)),
        decreases cs.len() - i,
    {
        assert(cs@.take(i + 1).drop_last() =~= cs@.take(i as int));
        push_escaped_char(&mut out, kind, cs[i]);
        i += 1;
    }
    assert(cs@.take(cs.len() as int) =~= cs@);
    out
}

/// Escapes a string for a JSON string literal.
pub fn json_escape(value: &str) -> (r: String)
    ensures
        r@ == escaped(Escape::Json, value@),
{
    escape(Escape::Json, value)
}

/// Escapes text for XML.
pub fn escape_xml(s: &str) -> (r: String)
    ensures
        r@ == escaped(Escape::Xml, s@),
{
    escape(Escape::Xml, s)
}

/// Escapes text for HTML (the XML escapes).
pub fn escape_html(s: &str) -> (r: String)
    ensures
        r@ == escaped(Escape::Xml, s@),
{
    escape(Escape::Xml, s)
}

/// A path written in YAML, with `/` separators.
pub fn path_for_yaml(path: &str) -> (r: String)
    ensures
        r@ == escaped(Escape::YamlPath, path@),
{
    escape(Escape::YamlPath, path)
}

/// A path written in a TOML string, with `/` separators.
pub fn path_for_toml(path: &str) -> (r: String)
    ensures
        r@ == escaped(Escape::QuotedPath, path@),
{
    escape(Escape::QuotedPath, path)
}

/// A path written in a JSON string, with `/` separators.
pub fn path_for_json(path: &str) -> (r: String)
    ensures
        r@ == escaped(Escape::QuotedPath, path@),
{
    escape(Escape::QuotedPath, path)
}

} // verus!
