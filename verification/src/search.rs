//! Search-index text: the readable text of a Typst body and the tokens a
//! search query can match.
use vstd::prelude::*;

use crate::config::SearchConfig;
use crate::links::{fence_line, is_fence_line};
use crate::script::string_views;
use crate::text::{ascii_lower, chars_of, copy_chars, eq_str, is_ascii_alnum, is_whitespace, is_ws, lines, lines_vec, string_of, strip_char, strip_char_vec, subvec, views, ws_words, ws_words_vec};
use crate::unicode::{alphanumeric, is_alphanumeric, lowercase, to_lowercase};
use crate::util::{join, join_vecs};

verus! {

broadcast use vstd::string::group_string_axioms;

// ---------------------------------------------------------------------------
// Plain text
// ---------------------------------------------------------------------------

/// Characters that end a `#command` in search text.
pub open spec fn ends_command(ch: char) -> bool {
    is_ws(ch) || ch == '[' || ch == ']' || ch == '{' || ch == '}' || ch == ')'
}

/// Markup characters that become a space in search text.
pub open spec fn is_markup(ch: char) -> bool {
    ch == '=' || ch == '*' || ch == '_' || ch == '[' || ch == ']' || ch == '{' || ch == '}' || ch
        == '(' || ch == ')' || ch == ','
}

/// One character of a body line read for search: the text so far, whether
/// inline code is open and whether a `#command` is being skipped.
pub open spec fn plain_step(st: (Seq<char>, bool, bool), ch: char) -> (Seq<char>, bool, bool) {
    let (out, in_code, skip) = st;
    if ch == '`' {
        (out, !in_code, skip)
    } else if in_code {
        st
    } else if ch == '#' {
        (out, in_code, true)
    } else if skip {
        (out, in_code, !ends_command(ch))
    } else if is_markup(ch) {
        (out.push(' '), in_code, skip)
    } else {
        (out.push(ch), in_code, skip)
    }
}

pub open spec fn plain_chars(st: (Seq<char>, bool, bool), l: Seq<char>) -> (Seq<char>, bool, bool)
    decreases l.len(),
{
    if l.len() == 0 {
        st
    } else {
        plain_step(plain_chars(st, l.drop_last()), l.last())
    }
}

/// The search text of `ls` so far: text, raw block open, inline code open,
/// command being skipped. Fence lines toggle raw blocks; lines in raw
/// blocks are dropped; every other line ends with a space.
pub open spec fn plain_lines(ls: Seq<Seq<char>>) -> (Seq<char>, bool, bool, bool)
    decreases ls.len(),
{
    if ls.len() == 0 {
        (Seq::<char>::empty(), false, false, false)
    } else {
        let (out, raw, code, skip) = plain_lines(ls.drop_last());
        let l = ls.last();
        if is_fence_line(l) {
            (out, !raw, code, skip)
        } else if raw {
            (out, raw, code, skip)
        } else {
            let (o2, c2, s2) = plain_chars((out, code, skip), l);
            (o2.push(' '), raw, c2, s2)
        }
    }
}

/// The readable words of a Typst body, single-space separated: raw blocks,
/// inline code and `#commands` dropped, markup characters treated as
/// spaces.
pub open spec fn plain_text(body: Seq<char>) -> Seq<char> {
    join(ws_words(plain_lines(lines(body)).0), seq![' '])
}

/// The text of a Typst body that search should index.
pub fn plain_text_for_search(body: &str) -> (r: String)
    ensures
        r@ == plain_text(body@),
{
    let cs = chars_of(body);
    let ls = lines_vec(&cs);
    let ghost lv = views(ls@);
    let mut out: Vec<char> = Vec::new();
    let mut in_raw = false;
    let mut in_code = false;
    let mut skip = false;
    let mut i: usize = 0;
    while i < ls.len()
        invariant
            i <= ls.len(),
            lv == views(ls@),
            lv == lines(body@),
            plain_lines(lv.take(i as int)) == (out@, in_raw, in_code, skip),
        decreases ls.len() - i,
    {
        assert(lv.take(i + 1).drop_last() =~= lv.take(i as int));
        assert(lv.take(i + 1).last() == ls@[i as int]@);
        let line = &ls[i];
        if fence_line(line) {
            in_raw = !in_raw;
        } else if !in_raw {
            let ghost st0 = (out@, in_code, skip);
            let mut k: usize = 0;
            while k < line.len()
                invariant
                    k <= line.len(),
                    plain_chars(st0, line@.take(k as int)) == (out@, in_code, skip),
                decreases line.len() - k,
            {
                assert(line@.take(k + 1).drop_last() =~= line@.take(k as int));
                let ch = line[k];
                if ch == '`' {
                    in_code = !in_code;
                } else if in_code {
                } else if ch == '#' {
                    skip = true;
                } else if skip {
                    if is_whitespace(ch) || ch == '[' || ch == ']' || ch == '{' || ch == '}' || ch
                        == ')' {
                        skip = false;
                    }
                } else if ch == '=' || ch == '*' || ch == '_' || ch == '[' || ch == ']' || ch
                    == '{' || ch == '}' || ch == '(' || ch == ')' || ch == ',' {
                    out.push(' ');
                } else {
                    out.push(ch);
                }
                k += 1;
            }
            assert(line@.take(line.len() as int) =~= line@);
            out.push(' ');
        }
        i += 1;
    }
    assert(lv.take(ls.len() as int) =~= lv);
    let words = ws_words_vec(&out);
    let mut sep: Vec<char> = Vec::new();
    sep.push(' ');
    assert(sep@ =~= seq![' ']);
    let joined = join_vecs(&words, &sep);
    string_of(&joined)
}

// ---------------------------------------------------------------------------
// Tokens
// ---------------------------------------------------------------------------

/// Kana and CJK ideographs, which search splits into n-grams.
pub open spec fn is_cjk_char(ch: char) -> bool {
    let u = ch as u32;
    ||| (0x3040 <= u && u <= 0x309f)
    ||| (0x30a0 <= u && u <= 0x30ff)
    ||| (0x3400 <= u && u <= 0x4dbf)
    ||| (0x4e00 <= u && u <= 0x9fff)
    ||| (0xf900 <= u && u <= 0xfaff)
    ||| (0xff66 <= u && u <= 0xff9f)
}

/// Whether a character is kana or a CJK ideograph.
pub fn is_cjk(ch: char) -> (r: bool)
    ensures
        r == is_cjk_char(ch),
{
    let u = ch as u32;
    (0x3040 <= u && u <= 0x309f) || (0x30a0 <= u && u <= 0x30ff) || (0x3400 <= u && u <= 0x4dbf)
        || (0x4e00 <= u && u <= 0x9fff) || (0xf900 <= u && u <= 0xfaff) || (0xff66 <= u && u
        <= 0xff9f)
}

/// The n-gram width: `ngram` clamped to 1..=8.
pub open spec fn ngram_width(ngram: usize) -> nat {
    if ngram < 1 {
        1
    } else if ngram > 8 {
        8
    } else {
        ngram as nat
    }
}

/// The tokens after a run of word characters ends: the run without
/// surrounding underscores, when at least two characters remain.
pub open spec fn flush_latin(tokens: Seq<Seq<char>>, latin: Seq<char>) -> Seq<Seq<char>> {
    let t = strip_char(latin, '_');
    if t.len() >= 2 {
        tokens.push(t)
    } else {
        tokens
    }
}

/// The n-grams of a run of CJK characters: every window of width `n`, or
/// the whole run when it is shorter.
pub open spec fn ngrams(cjk: Seq<char>, n: nat) -> Seq<Seq<char>> {
    if cjk.len() == 0 {
        Seq::<Seq<char>>::empty()
    } else if cjk.len() < n {
        seq![cjk]
    } else {
        Seq::new((cjk.len() - n + 1) as nat, |k: int| cjk.subrange(k, k + n))
    }
}

/// Whether `ch` belongs to a word: an ASCII letter or digit, or a
/// non-ASCII alphanumeric character.
pub open spec fn word_char(ch: char) -> bool {
    if (ch as u32) < 128 {
        is_ascii_alnum(ch)
    } else {
        alphanumeric(ch)
    }
}

/// The lowercase form of `ch`: the ASCII lowercase letter for an ASCII
/// character, else the Unicode lowercase mapping.
pub open spec fn lower_of(ch: char) -> Seq<char> {
    if (ch as u32) < 128 {
        seq![ascii_lower(ch)]
    } else {
        lowercase(ch)
    }
}

/// One character fed to the tokenizer: tokens so far, the word being read
/// (lowercased) and the CJK run being read.
pub open spec fn token_step(
    st: (Seq<Seq<char>>, Seq<char>, Seq<char>),
    ch: char,
    latin_on: bool,
    cjk_on: bool,
    n: nat,
) -> (Seq<Seq<char>>, Seq<char>, Seq<char>) {
    let (tokens, latin, cjk) = st;
    if is_cjk_char(ch) {
        (flush_latin(tokens, latin), Seq::<char>::empty(), if cjk_on {
            cjk.push(ch)
        } else {
            cjk
        })
    } else if word_char(ch) || ch == '_' {
        (tokens + ngrams(cjk, n), if latin_on {
            latin + lower_of(ch)
        } else {
            latin
        }, Seq::<char>::empty())
    } else {
        (flush_latin(tokens, latin) + ngrams(cjk, n), Seq::<char>::empty(), Seq::<char>::empty())
    }
}

pub open spec fn token_fold(s: Seq<char>, latin_on: bool, cjk_on: bool, n: nat) -> (
    Seq<Seq<char>>,
    Seq<char>,
    Seq<char>,
)
    decreases s.len(),
{
    if s.len() == 0 {
        (Seq::<Seq<char>>::empty(), Seq::<char>::empty(), Seq::<char>::empty())
    } else {
        token_step(token_fold(s.drop_last(), latin_on, cjk_on, n), s.last(), latin_on, cjk_on, n)
    }
}

/// The first occurrence of each non-empty token, at most `max(limit, 1)`
/// of them.
pub open spec fn dedupe(tokens: Seq<Seq<char>>, limit: nat) -> Seq<Seq<char>>
    decreases tokens.len(),
{
    if tokens.len() == 0 {
        Seq::<Seq<char>>::empty()
    } else {
        let prev = dedupe(tokens.drop_last(), limit);
        let t = tokens.last();
        if prev.len() >= (if limit < 1 {
            1
        } else {
            limit
        }) || t.len() == 0 || prev.contains(t) {
            prev
        } else {
            prev.push(t)
        }
    }
}

/// The search tokens of `text` under the settings: lowercased words of
/// letters, digits and underscores (unless the mode is `ngram-only`), and
/// n-grams of CJK runs (when the mode is `auto`, `cjk`, `ngram` or
/// `ngram-only`), first occurrences only, at most `max_tokens`.
pub open spec fn search_tokens_of(text: Seq<char>, mode: Seq<char>, ngram: usize, max_tokens: usize) -> Seq<Seq<char>> {
    let latin_on = mode != "ngram-only"@;
    let cjk_on = mode == "auto"@ || mode == "cjk"@ || mode == "ngram"@ || mode == "ngram-only"@;
    let n = ngram_width(ngram);
    let (tokens, latin, cjk) = token_fold(text, latin_on, cjk_on, n);
    dedupe(flush_latin(tokens, latin) + ngrams(cjk, n), max_tokens as nat)
}

/// Ends the current word.
fn push_latin(tokens: &mut Vec<Vec<char>>, latin: &mut Vec<char>)
    ensures
        views(final(tokens)@) == flush_latin(views(old(tokens)@), old(latin)@),
        final(latin)@.len() == 0,
{
    let t = strip_char_vec(latin, '_');
    *latin = Vec::new();
    if t.len() >= 2 {
        let ghost before = views(tokens@);
        tokens.push(t);
        assert(views(tokens@) =~= before.push(t@));
    }
}

/// Ends the current CJK run.
fn push_cjk(tokens: &mut Vec<Vec<char>>, cjk: &mut Vec<char>, n: usize)
    requires
        1 <= n <= 8,
    ensures
        views(final(tokens)@) == views(old(tokens)@) + ngrams(old(cjk)@, n as nat),
        final(cjk)@.len() == 0,
{
    let ghost before = views(tokens@);
    if cjk.len() == 0 {
        assert(before + Seq::<Seq<char>>::empty() =~= before);
        return;
    }
    if cjk.len() < n {
        let c = copy_chars(cjk);
        tokens.push(c);
        assert(views(tokens@) =~= before + seq![c@]);
        *cjk = Vec::new();
        return;
    }
    let ghost g = ngrams(cjk@, n as nat);
    let count = cjk.len() - n + 1;
    let mut k: usize = 0;
    while k < count
        invariant
            k <= count,
            count == cjk.len() - n + 1,
            n <= cjk.len(),
            g == ngrams(cjk@, n as nat),
            g.len() == count,
            views(tokens@) == before + g.take(k as int),
        decreases count - k,
    {
        let w = subvec(cjk, k, k + n);
        let ghost t0 = views(tokens@);
        tokens.push(w);
        k += 1;
        assert(views(tokens@) =~= t0.push(w@));
        assert(g[k - 1] == w@);
        assert(views(tokens@) =~= before + g.take(k as int));
    }
    assert(g.take(count as int) =~= g);
    *cjk = Vec::new();
}

/// Whether the word vectors `v` hold `t`.
fn contains_token(v: &Vec<Vec<char>>, t: &Vec<char>) -> (r: bool)
    ensures
        r == views(v@).contains(t@),
{
    let mut i: usize = 0;
    while i < v.len()
        invariant
            i <= v.len(),
            forall|k: int| 0 <= k < i ==> views(v@)[k] != t@,
        decreases v.len() - i,
    {
        assert(views(v@)[i as int] == v@[i as int]@);
        if crate::text::vec_eq(&v[i], t) {
            return true;
        }
        i += 1;
    }
    false
}

/// Keeps the first occurrence of each non-empty token, at most
/// `max(max_tokens, 1)` of them.
pub fn dedupe_tokens(tokens: &Vec<Vec<char>>, max_tokens: usize) -> (r: Vec<Vec<char>>)
    ensures
        views(r@) == dedupe(views(tokens@), max_tokens as nat),
{
    let limit = if max_tokens < 1 {
        1
    } else {
        max_tokens
    };
    let ghost tv = views(tokens@);
    let mut out: Vec<Vec<char>> = Vec::new();
    let mut i: usize = 0;
    while i < tokens.len()
        invariant
            i <= tokens.len(),
            tv == views(tokens@),
            limit == (if max_tokens < 1 {
                1
            } else {
                max_tokens
            }),
            views(out@) == dedupe(tv.take(i as int), max_tokens as nat),
        decreases tokens.len() - i,
    {
        assert(tv.take(i + 1).drop_last() =~= tv.take(i as int));
        assert(tv.take(i + 1).last() == tokens@[i as int]@);
        let t = &tokens[i];
        if out.len() < limit && t.len() > 0 && !contains_token(&out, t) {
            let ghost before = views(out@);
            out.push(copy_chars(t));
            assert(views(out@) =~= before.push(t@));
        }
        i += 1;
    }
    assert(tv.take(tokens.len() as int) =~= tv);
    out
}

/// Splits search text into index tokens.
pub fn tokenize_search_text(text: &str, cfg: &SearchConfig) -> (r: Vec<String>)
    ensures
        string_views(r@) == search_tokens_of(text@, cfg.mode@, cfg.ngram, cfg.max_tokens),
{
    let mode = chars_of(cfg.mode.as_str());
    let latin_on = !eq_str(&mode, "ngram-only");
    let cjk_on = eq_str(&mode, "auto") || eq_str(&mode, "cjk") || eq_str(&mode, "ngram") || eq_str(
        &mode,
        "ngram-only",
    );
    let n: usize = if cfg.ngram < 1 {
        1
    } else if cfg.ngram > 8 {
        8
    } else {
        cfg.ngram
    };
    let cs = chars_of(text);
    let mut tokens: Vec<Vec<char>> = Vec::new();
    let mut latin: Vec<char> = Vec::new();
    let mut cjk: Vec<char> = Vec::new();
    let mut i: usize = 0;
    while i < cs.len()
        invariant
            i <= cs.len(),
            cs@ == text@,
            1 <= n <= 8,
            n == ngram_width(cfg.ngram),
            token_fold(cs@.take(i as int), latin_on, cjk_on, n as nat) == (
                views(tokens@),
                latin@,
                cjk@,
            ),
        decreases cs.len() - i,
    {
        assert(cs@.take(i + 1).drop_last() =~= cs@.take(i as int));
        let ch = cs[i];
        if is_cjk(ch) {
            push_latin(&mut tokens, &mut latin);
            if cjk_on {
                cjk.push(ch);
            }
            assert(latin@ =~= Seq::<char>::empty());
        } else if is_alphanumeric(ch) || ch == '_' {
            push_cjk(&mut tokens, &mut cjk, n);
            if latin_on {
                let low = to_lowercase(ch);
                let ghost l0 = latin@;
                let mut k: usize = 0;
                while k < low.len()
                    invariant
                        k <= low.len(),
                        latin@ == l0 + low@.take(k as int),
                    decreases low.len() - k,
                {
                    latin.push(low[k]);
                    k += 1;
                    assert(latin@ =~= l0 + low@.take(k as int));
                }
                assert(low@.take(low.len() as int) =~= low@);
            }
            assert(cjk@ =~= Seq::<char>::empty());
        } else {
            push_latin(&mut tokens, &mut latin);
            push_cjk(&mut tokens, &mut cjk, n);
            assert(latin@ =~= Seq::<char>::empty());
            assert(cjk@ =~= Seq::<char>::empty());
        }
        i += 1;
    }
    assert(cs@.take(cs.len() as int) =~= cs@);
    push_latin(&mut tokens, &mut latin);
    push_cjk(&mut tokens, &mut cjk, n);
    let kept = dedupe_tokens(&tokens, cfg.max_tokens);
    let mut out: Vec<String> = Vec::new();
    let mut k: usize = 0;
    while k < kept.len()
        invariant
            k <= kept.len(),
            string_views(out@) == views(kept@).take(k as int),
        decreases kept.len() - k,
    {
        let ghost before = string_views(out@);
        let s = string_of(&kept[k]);
        out.push(s);
        k += 1;
        assert(string_views(out@) =~= before.push(kept@[k - 1]@));
        assert(string_views(out@) =~= views(kept@).take(k as int));
    }
    assert(views(kept@).take(kept.len() as int) =~= views(kept@));
    out
}

} // verus!
