//! Shortcodes: `{{ name(args) }}` in page sources, expanded into Typst
//! markup outside raw blocks.
use vstd::prelude::*;

use crate::paths::{lemma_rfind_char, rfind_char, rfind_char_vec};
use crate::script::string_views;
use crate::table::{lookup_entry, pair_views, pairs_map};
use crate::text::{
    chars_of, copy_chars, find, find_char, find_char_vec, find_vec, lemma_find_from_bounds, lines,
    lines_vec, replace_all, replace_vec, starts_with, string_of, subvec, trim, trim_start,
    trim_start_vec, trim_vec, views,
};
use crate::url::decimal;
use crate::util::{typst_string, typst_string_of};

verus! {

broadcast use vstd::string::group_string_axioms;

// ---------------------------------------------------------------------------
// Arguments
// ---------------------------------------------------------------------------

/// The state of the argument splitter: finished pieces, the current piece,
/// the open quote and whether the previous character was a backslash.
pub type ArgState = (Seq<Seq<char>>, Seq<char>, Option<char>, bool);

/// One character fed to the argument splitter. Quotes and backslashes are
/// kept in the pieces; a comma outside quotes ends a piece.
pub open spec fn arg_step(st: ArgState, ch: char) -> ArgState {
    let (out, cur, quote, escape) = st;
    if escape {
        (out, cur.push(ch), quote, false)
    } else if ch == '\\' {
        (out, cur.push(ch), quote, true)
    } else if quote is Some {
        (out, cur.push(ch), if ch == quote->0 {
            None
        } else {
            quote
        }, false)
    } else if ch == '"' || ch == '\'' {
        (out, cur.push(ch), Some(ch), false)
    } else if ch == ',' {
        (out.push(trim(cur)), Seq::<char>::empty(), None, false)
    } else {
        (out, cur.push(ch), None, false)
    }
}

/// The argument splitter's state after reading all of `s`.
pub open spec fn arg_fold(s: Seq<char>) -> ArgState
    decreases s.len(),
{
    if s.len() == 0 {
        (Seq::<Seq<char>>::empty(), Seq::<char>::empty(), None, false)
    } else {
        arg_step(arg_fold(s.drop_last()), s.last())
    }
}

/// The trimmed, comma-separated pieces of a shortcode's argument list;
/// a blank last piece is dropped.
pub open spec fn shortcode_pieces(s: Seq<char>) -> Seq<Seq<char>> {
    let (out, cur, _quote, _escape) = arg_fold(s);
    if trim(cur).len() > 0 {
        out.push(trim(cur))
    } else {
        out
    }
}

/// Splits a shortcode's argument list at commas outside quotes.
pub fn split_shortcode_args(args: &str) -> (r: Vec<String>)
    ensures
        string_views(r@) == shortcode_pieces(args@),
{
    let cs = chars_of(args);
    let mut out: Vec<String> = Vec::new();
    let mut cur: Vec<char> = Vec::new();
    let mut quote: Option<char> = None;
    let mut escape = false;
    let mut i: usize = 0;
    while i < cs.len()
        invariant
            i <= cs.len(),
            cs@ == args@,
            arg_fold(cs@.take(i as int)) == (string_views(out@), cur@, quote, escape),
        decreases cs.len() - i,
    {
        let ch = cs[i];
        assert(cs@.take(i + 1).drop_last() =~= cs@.take(i as int));
        let ghost before = string_views(out@);
        if escape {
            cur.push(ch);
            escape = false;
        } else if ch == '\\' {
            cur.push(ch);
            escape = true;
        } else if quote.is_some() {
            cur.push(ch);
            if Some(ch) == quote {
                quote = None;
            }
        } else if ch == '"' || ch == '\'' {
            quote = Some(ch);
            cur.push(ch);
        } else if ch == ',' {
            let t = trim_vec(&cur);
            out.push(string_of(&t));
            cur = Vec::new();
            assert(string_views(out@) =~= before.push(t@));
        } else {
            cur.push(ch);
        }
        i += 1;
    }
    assert(cs@.take(cs.len() as int) =~= cs@);
    let t = trim_vec(&cur);
    if t.len() > 0 {
        let ghost before = string_views(out@);
        out.push(string_of(&t));
        assert(string_views(out@) =~= before.push(t@));
    }
    out
}

/// Whether a trimmed value is wrapped in a pair of the same quotes.
pub open spec fn is_quoted(t: Seq<char>) -> bool {
    t.len() > 0 && ((t[0] == '"' && t.last() == '"') || (t[0] == '\'' && t.last() == '\''))
}

/// A shortcode value without its quotes: trimmed, and when quoted the
/// text between the quotes with `\"` and `\'` unescaped. A lone quote
/// character has no value.
pub open spec fn unquote_of(s: Seq<char>) -> Option<Seq<char>> {
    let t = trim(s);
    if is_quoted(t) {
        if t.len() < 2 {
            None
        } else {
            Some(
                replace_all(
                    replace_all(t.subrange(1, t.len() - 1), seq!['\\', '"'], seq!['"']),
                    seq!['\\', '\''],
                    seq!['\''],
                ),
            )
        }
    } else {
        Some(t)
    }
}

/// A shortcode value without its quotes, if it has one.
pub fn unquote(s: &Vec<char>) -> (r: Option<Vec<char>>)
    ensures
        r matches Some(v) ==> unquote_of(s@) == Some(v@),
        r is None ==> unquote_of(s@) is None,
{
    let t = trim_vec(s);
    let n = t.len();
    if n > 0 && ((t[0] == '"' && t[n - 1] == '"') || (t[0] == '\'' && t[n - 1] == '\'')) {
        if n < 2 {
            return None;
        }
        let inner = subvec(&t, 1, n - 1);
        let mut p1: Vec<char> = Vec::new();
        p1.push('\\');
        p1.push('"');
        let mut r1: Vec<char> = Vec::new();
        r1.push('"');
        let mut p2: Vec<char> = Vec::new();
        p2.push('\\');
        p2.push('\'');
        let mut r2: Vec<char> = Vec::new();
        r2.push('\'');
        assert(p1@ =~= seq!['\\', '"']);
        assert(r1@ =~= seq!['"']);
        assert(p2@ =~= seq!['\\', '\'']);
        assert(r2@ =~= seq!['\'']);
        let once = replace_vec(&inner, &p1, &r1);
        Some(replace_vec(&once, &p2, &r2))
    } else {
        Some(t)
    }
}

/// The named values of a shortcode's pieces, in order: `key=value`
/// pieces by their trimmed key, other pieces by their position among all
/// pieces; blank pieces are skipped. None when a value has no unquoted
/// form.
pub open spec fn arg_pairs(parts: Seq<Seq<char>>) -> Option<Seq<(Seq<char>, Seq<char>)>>
    decreases parts.len(),
{
    if parts.len() == 0 {
        Some(Seq::<(Seq<char>, Seq<char>)>::empty())
    } else {
        match arg_pairs(parts.drop_last()) {
            None => None,
            Some(prev) => {
                let part = trim(parts.last());
                if part.len() == 0 {
                    Some(prev)
                } else {
                    match find_char(part, '=') {
                        Some(k) => match unquote_of(trim(part.skip(k + 1))) {
                            None => None,
                            Some(v) => Some(prev.push((trim(part.take(k)), v))),
                        },
                        None => match unquote_of(part) {
                            None => None,
                            Some(v) => Some(prev.push((decimal((parts.len() - 1) as nat), v))),
                        },
                    }
                }
            },
        }
    }
}

/// Once a prefix of the pieces has an argument without a value, so has
/// the whole list.
proof fn lemma_arg_pairs_none(parts: Seq<Seq<char>>, n: int)
    requires
        0 <= n <= parts.len(),
        arg_pairs(parts.take(n)) is None,
    ensures
        arg_pairs(parts) is None,
    decreases parts.len(),
{
    if n == parts.len() {
        assert(parts.take(n) =~= parts);
    } else {
        assert(parts.drop_last().take(n) =~= parts.take(n));
        lemma_arg_pairs_none(parts.drop_last(), n);
    }
}

/// The named values of a shortcode's argument list; a later value for a
/// name replaces an earlier one.
pub fn parse_shortcode_args(args: &str) -> (r: Option<Vec<(String, String)>>)
    ensures
        r matches Some(t) ==> arg_pairs(shortcode_pieces(args@)) == Some(pair_views(t@)),
        r is None ==> arg_pairs(shortcode_pieces(args@)) is None,
{
    let parts = split_shortcode_args(args);
    let ghost ps = string_views(parts@);
    let mut out: Vec<(String, String)> = Vec::new();
    let mut i: usize = 0;
    while i < parts.len()
        invariant
            i <= parts.len(),
            ps == string_views(parts@),
            ps == shortcode_pieces(args@),
            arg_pairs(ps.take(i as int)) == Some(pair_views(out@)),
        decreases parts.len() - i,
    {
        assert(ps.take(i + 1).drop_last() =~= ps.take(i as int));
        assert(ps.take(i + 1).last() == parts@[i as int]@);
        let pc = chars_of(parts[i].as_str());
        let part = trim_vec(&pc);
        if part.len() > 0 {
            let ghost before = pair_views(out@);
            match find_char_vec(&part, '=') {
                Some(k) => {
                    proof {
                        lemma_find_from_bounds(part@, seq!['='], 0);
                    }
                    let key = subvec(&part, 0, k);
                    let val = subvec(&part, k + 1, part.len());
                    assert(key@ =~= part@.take(k as int));
                    assert(val@ =~= part@.skip(k + 1));
                    let kt = trim_vec(&key);
                    let vt = trim_vec(&val);
                    match unquote(&vt) {
                        None => {
                            proof {
                                lemma_arg_pairs_none(ps, i + 1);
                            }
                            return None;
                        },
                        Some(v) => {
                            out.push((string_of(&kt), string_of(&v)));
                            assert(pair_views(out@) =~= before.push((kt@, v@)));
                        },
                    }
                },
                None => {
                    match unquote(&part) {
                        None => {
                            proof {
                                lemma_arg_pairs_none(ps, i + 1);
                            }
                            return None;
                        },
                        Some(v) => {
                            let idx = crate::url::usize_to_decimal(i);
                            out.push((string_of(&idx), string_of(&v)));
                            assert(pair_views(out@) =~= before.push((idx@, v@)));
                        },
                    }
                },
            }
        }
        i += 1;
    }
    assert(ps.take(parts.len() as int) =~= ps);
    Some(out)
}

// ---------------------------------------------------------------------------
// Rendering
// ---------------------------------------------------------------------------

/// Typst markup of the `note` shortcode, around its text.
pub const NOTE_HEAD: &'static str = "#context { let text = ";

pub const NOTE_TAIL: &'static str = "; if target() == \"html\" { html.elem(\"aside\", attrs: (class: \"note\"))[#text] } else { block(inset: 8pt, stroke: luma(180))[#text] } }";

/// Typst markup of the `figure` shortcode, around its source, alternative
/// text and caption.
pub const FIGURE_HEAD: &'static str = "#context { let src = ";

pub const FIGURE_ALT: &'static str = "; let alt = ";

pub const FIGURE_CAPTION: &'static str = "; let caption = ";

pub const FIGURE_TAIL: &'static str = "; if target() == \"html\" { html.elem(\"figure\", attrs: (class: \"figure\"))[#html.elem(\"img\", attrs: (src: src, alt: alt))[] #if caption != none { html.elem(\"figcaption\")[#caption] }] } else { if caption != none { figure(image(src), caption: caption) } else { image(src) } } }";

/// Typst markup of the `youtube` shortcode, around its embed address and
/// title.
pub const YOUTUBE_HEAD: &'static str = "#context { let src = ";

pub const YOUTUBE_TITLE: &'static str = "; let title = ";

pub const YOUTUBE_TAIL: &'static str = "; if target() == \"html\" { html.elem(\"div\", attrs: (class: \"embed embed-youtube\"))[#html.elem(\"iframe\", attrs: (src: src, title: title, loading: \"lazy\", allowfullscreen: \"\"))[]] } else { link(src)[#title] } }";

/// Where a YouTube video is embedded from, before its id.
pub const YOUTUBE_EMBED: &'static str = "https://www.youtube-nocookie.com/embed/";

/// The title of a video without one.
pub const YOUTUBE_DEFAULT_TITLE: &'static str = "YouTube video";

/// The value for `key`, or `default`.
pub open spec fn value_or(m: Map<Seq<char>, Seq<char>>, key: Seq<char>, default: Seq<char>) -> Seq<char> {
    if m.contains_key(key) {
        m[key]
    } else {
        default
    }
}

/// The markup of a built-in shortcode, given its name and values; none for
/// an unknown name or a missing required value (`text` or the first
/// positional value for `note`, `src` for `figure`, `id` for `youtube`).
pub open spec fn render_named(name: Seq<char>, m: Map<Seq<char>, Seq<char>>) -> Option<Seq<char>> {
    if name == "note"@ {
        if m.contains_key("text"@) {
            Some(NOTE_HEAD@ + typst_string_of(m["text"@]) + NOTE_TAIL@)
        } else if m.contains_key("0"@) {
            Some(NOTE_HEAD@ + typst_string_of(m["0"@]) + NOTE_TAIL@)
        } else {
            None
        }
    } else if name == "figure"@ {
        if m.contains_key("src"@) {
            let cap = if m.contains_key("caption"@) {
                "some("@ + typst_string_of(m["caption"@]) + ")"@
            } else {
                "none"@
            };
            Some(
                FIGURE_HEAD@ + typst_string_of(m["src"@]) + FIGURE_ALT@ + typst_string_of(
                    value_or(m, "alt"@, Seq::<char>::empty()),
                ) + FIGURE_CAPTION@ + cap + FIGURE_TAIL@,
            )
        } else {
            None
        }
    } else if name == "youtube"@ {
        if m.contains_key("id"@) {
            Some(
                YOUTUBE_HEAD@ + typst_string_of(YOUTUBE_EMBED@ + m["id"@]) + YOUTUBE_TITLE@
                    + typst_string_of(value_or(m, "title"@, YOUTUBE_DEFAULT_TITLE@)) + YOUTUBE_TAIL@,
            )
        } else {
            None
        }
    } else {
        None
    }
}

/// What the text between `{{` and `}}` renders to: `name(args)` up to the
/// last `)`. The inner option is none when the text is no known shortcode;
/// the outer one is none when an argument has no value.
pub open spec fn render_of(inner: Seq<char>) -> Option<Option<Seq<char>>> {
    match find_char(inner, '(') {
        None => Some(None),
        Some(open) => match rfind_char(inner, ')') {
            None => Some(None),
            Some(close) => if close <= open {
                Some(None)
            } else {
                match arg_pairs(shortcode_pieces(inner.subrange(open + 1, close))) {
                    None => None,
                    Some(ps) => Some(render_named(trim(inner.take(open)), pairs_map(ps))),
                }
            },
        },
    }
}

/// The text of the value for `key` in a table.
fn lookup(table: &Vec<(String, String)>, key: &str) -> (r: Option<String>)
    ensures
        r matches Some(c) ==> pairs_map(pair_views(table@)).contains_key(key@) && c@ == pairs_map(
            pair_views(table@),
        )[key@],
        r is None ==> !pairs_map(pair_views(table@)).contains_key(key@),
{
    lookup_entry(table, key)
}

/// The markup of a built-in shortcode.
fn render_named_exec(name: &Vec<char>, table: &Vec<(String, String)>) -> (r: Option<String>)
    ensures
        r matches Some(x) ==> render_named(name@, pairs_map(pair_views(table@))) == Some(x@),
        r is None ==> render_named(name@, pairs_map(pair_views(table@))) is None,
{
    let ghost m = pairs_map(pair_views(table@));
    if crate::text::eq_str(name, "note") {
        let text = match lookup(table, "text") {
            Some(t) => t,
            None => match lookup(table, "0") {
                Some(t) => t,
                None => return None,
            },
        };
        let mut s = String::from_str(NOTE_HEAD);
        s.append(typst_string(text.as_str()).as_str());
        s.append(NOTE_TAIL);
        Some(s)
    } else if crate::text::eq_str(name, "figure") {
        let src = match lookup(table, "src") {
            Some(t) => t,
            None => return None,
        };
        let alt = match lookup(table, "alt") {
            Some(t) => t,
            None => String::new(),
        };
        assert(alt@ == value_or(m, "alt"@, Seq::<char>::empty()));
        let cap = match lookup(table, "caption") {
            Some(c) => {
                let mut x = String::from_str("some(");
                x.append(typst_string(c.as_str()).as_str());
                x.append(")");
                x
            },
            None => String::from_str("none"),
        };
        let mut s = String::from_str(FIGURE_HEAD);
        s.append(typst_string(src.as_str()).as_str());
        s.append(FIGURE_ALT);
        s.append(typst_string(alt.as_str()).as_str());
        s.append(FIGURE_CAPTION);
        s.append(cap.as_str());
        s.append(FIGURE_TAIL);
        Some(s)
    } else if crate::text::eq_str(name, "youtube") {
        let id = match lookup(table, "id") {
            Some(t) => t,
            None => return None,
        };
        let title = match lookup(table, "title") {
            Some(t) => t,
            None => String::from_str(YOUTUBE_DEFAULT_TITLE),
        };
        assert(title@ == value_or(m, "title"@, YOUTUBE_DEFAULT_TITLE@));
        let mut src = String::from_str(YOUTUBE_EMBED);
        src.append(id.as_str());
        let mut s = String::from_str(YOUTUBE_HEAD);
        s.append(typst_string(src.as_str()).as_str());
        s.append(YOUTUBE_TITLE);
        s.append(typst_string(title.as_str()).as_str());
        s.append(YOUTUBE_TAIL);
        Some(s)
    } else {
        None
    }
}

/// Renders the text between `{{` and `}}`: the outer option is none when
/// an argument has no value, the inner one when the text is no known
/// shortcode.
pub fn render_shortcode(inner: &Vec<char>) -> (r: Option<Option<String>>)
    ensures
        r matches Some(Some(x)) ==> render_of(inner@) == Some(Some(x@)),
        r matches Some(None) ==> render_of(inner@) == Some(None::<Seq<char>>),
        r is None ==> render_of(inner@) is None,
{
    let open = match find_char_vec(inner, '(') {
        Some(k) => k,
        None => return Some(None),
    };
    let close = match rfind_char_vec(inner, ')') {
        Some(k) => k,
        None => return Some(None),
    };
    proof {
        lemma_find_from_bounds(inner@, seq!['('], 0);
        lemma_rfind_char(inner@, ')');
    }
    if close <= open {
        return Some(None);
    }
    let name_raw = subvec(inner, 0, open);
    assert(name_raw@ =~= inner@.take(open as int));
    let name = trim_vec(&name_raw);
    let args = subvec(inner, open + 1, close);
    let args_s = string_of(&args);
    let table = match parse_shortcode_args(args_s.as_str()) {
        Some(t) => t,
        None => return None,
    };
    Some(render_named_exec(&name, &table))
}

// ---------------------------------------------------------------------------
// Expanding a page
// ---------------------------------------------------------------------------

/// A line with its shortcodes expanded, left to right: each `{{ .. }}`
/// becomes its markup, or stays (its text trimmed) when it is no known
/// shortcode; an unclosed `{{` and what follows stay as they are. None when
/// a shortcode argument has no value.
pub open spec fn expand_line_of(line: Seq<char>) -> Option<Seq<char>>
    decreases line.len(),
{
    match find(line, seq!['{', '{']) {
        None => Some(line),
        Some(start) => {
            let before = line.take(start);
            let after = line.skip(start + 2);
            match find(after, seq!['}', '}']) {
                None => Some(before + seq!['{', '{'] + after),
                Some(end) => {
                    proof {
                        lemma_find_from_bounds(line, seq!['{', '{'], 0);
                        lemma_find_from_bounds(after, seq!['}', '}'], 0);
                    }
                    let inner = trim(after.take(end));
                    match render_of(inner) {
                        None => None,
                        Some(rendered) => {
                            let piece = match rendered {
                                Some(x) => x,
                                None => seq!['{', '{'] + inner + seq!['}', '}'],
                            };
                            match expand_line_of(after.skip(end + 2)) {
                                None => None,
                                Some(t) => Some(before + piece + t),
                            }
                        },
                    }
                },
            }
        },
    }
}

/// Appends `v` to `out`.
fn append_chars(out: &mut Vec<char>, v: &Vec<char>)
    ensures
        final(out)@ == old(out)@ + v@,
{
    let ghost start = out@;
    let mut i: usize = 0;
    while i < v.len()
        invariant
            i <= v.len(),
            out@ == start + v@.take(i as int),
        decreases v.len() - i,
    {
        out.push(v[i]);
        i += 1;
        assert(out@ =~= start + v@.take(i as int));
    }
    assert(v@.take(v.len() as int) =~= v@);
}

/// Expands the shortcodes of one line; none when an argument has no value.
pub fn expand_shortcodes_line(line: &Vec<char>) -> (r: Option<Vec<char>>)
    ensures
        r matches Some(x) ==> expand_line_of(line@) == Some(x@),
        r is None ==> expand_line_of(line@) is None,
{
    let mut open: Vec<char> = Vec::new();
    open.push('{');
    open.push('{');
    let mut close: Vec<char> = Vec::new();
    close.push('}');
    close.push('}');
    assert(open@ =~= seq!['{', '{']);
    assert(close@ =~= seq!['}', '}']);
    let mut out: Vec<char> = Vec::new();
    let mut rest = copy_chars(line);
    loop
        invariant
            open@ == seq!['{', '{'],
            close@ == seq!['}', '}'],
            match expand_line_of(rest@) {
                Some(t) => expand_line_of(line@) == Some(out@ + t),
                None => expand_line_of(line@) is None,
            },
        decreases rest.len(),
    {
        let start = match find_vec(&rest, &open) {
            Some(k) => k,
            None => {
                append_chars(&mut out, &rest);
                return Some(out);
            },
        };
        proof {
            lemma_find_from_bounds(rest@, open@, 0);
        }
        let before = subvec(&rest, 0, start);
        let after = subvec(&rest, start + 2, rest.len());
        assert(before@ =~= rest@.take(start as int));
        assert(after@ =~= rest@.skip(start + 2));
        append_chars(&mut out, &before);
        let end = match find_vec(&after, &close) {
            Some(k) => k,
            None => {
                append_chars(&mut out, &open);
                append_chars(&mut out, &after);
                return Some(out);
            },
        };
        proof {
            lemma_find_from_bounds(after@, close@, 0);
        }
        let inner_raw = subvec(&after, 0, end);
        assert(inner_raw@ =~= after@.take(end as int));
        let inner = trim_vec(&inner_raw);
        let tail = subvec(&after, end + 2, after.len());
        assert(tail@ =~= after@.skip(end + 2));
        match render_shortcode(&inner) {
            None => return None,
            Some(Some(x)) => {
                let xv = chars_of(x.as_str());
                append_chars(&mut out, &xv);
            },
            Some(None) => {
                append_chars(&mut out, &open);
                append_chars(&mut out, &inner);
                append_chars(&mut out, &close);
            },
        }
        rest = tail;
    }
}

/// The page source after one more line: the text so far and whether a
/// raw block is open. A line whose trimmed start is a fence (three
/// backticks) opens or closes a raw block and is kept; lines in a raw
/// block are kept; others have their shortcodes expanded. Each line ends
/// with a newline.
pub open spec fn expand_fold(ls: Seq<Seq<char>>) -> Option<(Seq<char>, bool)>
    decreases ls.len(),
{
    if ls.len() == 0 {
        Some((Seq::<char>::empty(), false))
    } else {
        match expand_fold(ls.drop_last()) {
            None => None,
            Some((out, raw)) => {
                let line = ls.last();
                if starts_with(trim_start(line), seq!['`', '`', '`']) {
                    Some((out + line + seq!['\n'], !raw))
                } else if raw {
                    Some((out + line + seq!['\n'], raw))
                } else {
                    match expand_line_of(line) {
                        None => None,
                        Some(e) => Some((out + e + seq!['\n'], raw)),
                    }
                }
            },
        }
    }
}

/// A page source with the shortcodes outside raw blocks expanded; none
/// when a shortcode argument has no value.
pub open spec fn expanded_of(body: Seq<char>) -> Option<Seq<char>> {
    match expand_fold(lines(body)) {
        None => None,
        Some((out, _raw)) => Some(out),
    }
}

/// Once a prefix of the lines fails to expand, so do all of them.
proof fn lemma_expand_fold_none(ls: Seq<Seq<char>>, n: int)
    requires
        0 <= n <= ls.len(),
        expand_fold(ls.take(n)) is None,
    ensures
        expand_fold(ls) is None,
    decreases ls.len(),
{
    if n == ls.len() {
        assert(ls.take(n) =~= ls);
    } else {
        assert(ls.drop_last().take(n) =~= ls.take(n));
        lemma_expand_fold_none(ls.drop_last(), n);
    }
}

/// Expands the shortcodes of a page source outside raw blocks; none when
/// a shortcode argument has no value.
pub fn try_expand_shortcodes(body: &str) -> (r: Option<String>)
    ensures
        r matches Some(x) ==> expanded_of(body@) == Some(x@),
        r is None ==> expanded_of(body@) is None,
{
    let cs = chars_of(body);
    let ls = lines_vec(&cs);
    let ghost lv = views(ls@);
    let mut fence: Vec<char> = Vec::new();
    fence.push('`');
    fence.push('`');
    fence.push('`');
    assert(fence@ =~= seq!['`', '`', '`']);
    let mut out: Vec<char> = Vec::new();
    let mut raw = false;
    let mut i: usize = 0;
    while i < ls.len()
        invariant
            i <= ls.len(),
            lv == views(ls@),
            lv == lines(body@),
            fence@ == seq!['`', '`', '`'],
            expand_fold(lv.take(i as int)) == Some((out@, raw)),
        decreases ls.len() - i,
    {
        assert(lv.take(i + 1).drop_last() =~= lv.take(i as int));
        assert(lv.take(i + 1).last() == ls@[i as int]@);
        let line = &ls[i];
        let lead = trim_start_vec(line);
        if crate::text::starts_with_vec(&lead, &fence) {
            append_chars(&mut out, line);
            out.push('\n');
            raw = !raw;
        } else if raw {
            append_chars(&mut out, line);
            out.push('\n');
        } else {
            match expand_shortcodes_line(line) {
                None => {
                    proof {
                        lemma_expand_fold_none(lv, i + 1);
                    }
                    return None;
                },
                Some(e) => {
                    append_chars(&mut out, &e);
                    out.push('\n');
                },
            }
        }
        i += 1;
    }
    assert(lv.take(ls.len() as int) =~= lv);
    Some(string_of(&out))
}

/// Expands the shortcodes of a page source outside raw blocks. Every
/// shortcode argument must have a value: a lone quote character has none.
pub fn expand_shortcodes(body: &str) -> (r: String)
    requires
        expanded_of(body@) is Some,
    ensures
        expanded_of(body@) == Some(r@),
{
    match try_expand_shortcodes(body) {
        Some(x) => x,
        None => String::new(),
    }
}

} // verus!
