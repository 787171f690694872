//! Properties that hold across the library's functions, stated over the
//! spec functions their contracts use.
use vstd::prelude::*;

use crate::escape::{escape_char, escaped, Escape};
use crate::http::{revalidated, served_etag};
use crate::paths::join_path_of;
use crate::permalink::address_of;
use crate::script::{default_scripts, script_words, split_fold, split_step};
use crate::serve::{
    bad_request_piece, candidate_path_of, decode_from, percent_decoded, push_pieces, skipped_piece,
    with_live_reload, LIVE_RELOAD_TAG,
};
use crate::shortcode::expand_line_of;
use crate::table::pairs_map;
use crate::text::{
    find, find_from, is_ws, lemma_split_char_pieces, matches_at, split_char, starts_with, strip_char,
    strip_end_char, strip_start_char, trim, trim_end, trim_start,
};
use crate::url::{directory_url, has_unsafe_char, paginated_url_of, UrlError};
use crate::util::{effective_jobs_of, slug_of, typst_escape, typst_escape_char, typst_string_of};
use crate::watch::{change_outcome, REBUILD_GAP_MS};
use vstd::utf8::{
    encode_scalar, encode_utf8, encode_utf8_decode_utf8, encode_utf8_valid_utf8, has_width_1_encoding,
    last_continuation_byte, leading_byte_width_1, leading_byte_width_2, leading_byte_width_3,
    leading_byte_width_4, second_last_continuation_byte, third_last_continuation_byte,
};

verus! {

/// Putting the live-reload tag into a page only adds the tag: the page
/// grows by the tag's bytes, and the bytes around the tag are the page.
pub proof fn law_live_reload_only_adds_the_tag(body: Seq<u8>, pos: Option<int>)
    requires
        pos matches Some(p) ==> 0 <= p <= body.len(),
    ensures
        with_live_reload(body, pos).len() == body.len() + vstd::utf8::encode_utf8(LIVE_RELOAD_TAG@).len(),
        ({
            let tag = vstd::utf8::encode_utf8(LIVE_RELOAD_TAG@);
            let out = with_live_reload(body, pos);
            let p = match pos {
                Some(p) => p,
                None => body.len() as int,
            };
            out.take(p) + out.skip(p + tag.len()) == body && out.subrange(p, p + tag.len()) == tag
        }),
{
    let tag = vstd::utf8::encode_utf8(LIVE_RELOAD_TAG@);
    let out = with_live_reload(body, pos);
    let p = match pos {
        Some(p) => p,
        None => body.len() as int,
    };
    assert(out =~= body.take(p) + tag + body.skip(p));
    assert(out.take(p) =~= body.take(p));
    assert(out.skip(p + tag.len()) =~= body.skip(p));
    assert(out.subrange(p, p + tag.len()) =~= tag);
    assert(body.take(p) + body.skip(p) =~= body);
}

/// The number of compile jobs is zero exactly when there is nothing to
/// compile, and otherwise between one and the number of jobs.
pub proof fn law_jobs_stay_within_the_work(
    cli_jobs: Option<usize>,
    cfg_jobs: usize,
    job_count: usize,
    parallelism: usize,
)
    ensures
        (effective_jobs_of(cli_jobs, cfg_jobs, job_count, parallelism) == 0) == (job_count == 0),
        job_count > 0 ==> 1 <= effective_jobs_of(cli_jobs, cfg_jobs, job_count, parallelism)
            <= job_count,
{
}

/// A watch never rebuilds twice within the rebuild gap, and the time of
/// the last rebuild never goes back.
pub proof fn law_rebuilds_keep_their_distance(last_ms: Option<u64>, now_ms: u64)
    requires
        last_ms matches Some(l) ==> l <= now_ms,
    ensures
        change_outcome(last_ms, now_ms).1 ==> (last_ms matches Some(l) ==> now_ms - l >= REBUILD_GAP_MS),
        change_outcome(last_ms, now_ms).1 ==> change_outcome(last_ms, now_ms).0 == Some(now_ms),
        !change_outcome(last_ms, now_ms).1 ==> change_outcome(last_ms, now_ms).0 == last_ms,
{
}

/// A built-in script that the configuration does not name keeps its
/// command; a configured script always wins.
pub proof fn law_configured_scripts_override_defaults(
    user: Seq<(Seq<char>, Seq<char>)>,
    name: Seq<char>,
)
    ensures
        pairs_map(user).contains_key(name) ==> pairs_map(default_scripts()).union_prefer_right(
            pairs_map(user),
        )[name] == pairs_map(user)[name],
        !pairs_map(user).contains_key(name) && pairs_map(default_scripts()).contains_key(name)
            ==> pairs_map(default_scripts()).union_prefer_right(pairs_map(user))[name]
            == pairs_map(default_scripts())[name],
{
}

/// A link map gives back the URL last inserted for a key, and keeps the
/// other keys as they were.
pub proof fn law_link_map_read_after_write(
    m: Map<Seq<char>, Seq<char>>,
    key: Seq<char>,
    url: Seq<char>,
    other: Seq<char>,
)
    requires
        other != key,
    ensures
        m.insert(key, url).contains_key(key) && m.insert(key, url)[key] == url,
        m.insert(key, url).contains_key(other) == m.contains_key(other),
        m.contains_key(other) ==> m.insert(key, url)[other] == m[other],
{
}

/// The first page of a paginated list is the list's own URL.
pub proof fn law_first_page_is_the_list(base_url: Seq<char>)
    ensures
        paginated_url_of(base_url, 0) == base_url,
        paginated_url_of(base_url, 1) == base_url,
{
}

/// An answer is `304 Not Modified` only with an entity tag that the file
/// may carry and that the request already holds.
pub proof fn law_not_modified_needs_a_matching_tag(
    req: Seq<char>,
    path: Seq<char>,
    live_reload: bool,
    etag: Option<Seq<char>>,
)
    ensures
        revalidated(req, path, live_reload, etag) ==> etag is Some && served_etag(path, live_reload, etag)
            == etag && crate::serve::header_value_of(req, "if-none-match"@) == etag,
{
}

proof fn lemma_find_from_none(s: Seq<char>, p: Seq<char>, i: int)
    requires
        0 <= i,
        forall|j: int| i <= j ==> !#[trigger] matches_at(s, p, j),
    ensures
        find_from(s, p, i) is None,
    decreases s.len() + 1 - i,
{
    if i + p.len() > s.len() {
    } else {
        lemma_find_from_none(s, p, i + 1);
    }
}

/// The text that opens a shortcode.
pub open spec fn shortcode_opening() -> Seq<char> {
    seq!['{', '{']
}

/// A line without `{{` comes out of shortcode expansion unchanged.
pub proof fn law_lines_without_shortcodes_are_kept(line: Seq<char>)
    requires
        forall|j: int| !#[trigger] matches_at(line, shortcode_opening(), j),
    ensures
        expand_line_of(line) == Some(line),
{
    lemma_find_from_none(line, shortcode_opening(), 0);
    assert(find(line, seq!['{', '{']) is None);
}

proof fn lemma_strip_start_suffix(s: Seq<char>, c: char)
    ensures
        strip_start_char(s, c).len() <= s.len(),
        strip_start_char(s, c) == s.skip(s.len() - strip_start_char(s, c).len()),
        strip_start_char(s, c).len() == 0 || strip_start_char(s, c)[0] != c,
    decreases s.len(),
{
    if s.len() > 0 && s[0] == c {
        lemma_strip_start_suffix(s.drop_first(), c);
        assert(s.drop_first().skip(s.drop_first().len() - strip_start_char(s, c).len()) =~= s.skip(
            s.len() - strip_start_char(s, c).len(),
        ));
    } else {
        assert(s.skip(0) =~= s);
    }
}

proof fn lemma_strip_end_prefix(s: Seq<char>, c: char)
    ensures
        strip_end_char(s, c).len() <= s.len(),
        strip_end_char(s, c) == s.take(strip_end_char(s, c).len() as int),
        strip_end_char(s, c).len() == 0 || strip_end_char(s, c).last() != c,
    decreases s.len(),
{
    if s.len() > 0 && s.last() == c {
        lemma_strip_end_prefix(s.drop_last(), c);
        assert(s.drop_last().take(strip_end_char(s, c).len() as int) =~= s.take(
            strip_end_char(s, c).len() as int,
        ));
    } else {
        assert(s.take(s.len() as int) =~= s);
    }
}

/// `strip_char` keeps a stretch of the text that neither starts nor ends
/// with the stripped character.
proof fn lemma_strip_char_inner(s: Seq<char>, c: char)
    ensures
        ({
            let r = strip_char(s, c);
            let t = strip_start_char(s, c);
            let k = s.len() - t.len();
            &&& 0 <= k <= s.len()
            &&& r == s.subrange(k, k + r.len())
            &&& k + r.len() <= s.len()
            &&& (r.len() == 0 || (r[0] != c && r.last() != c))
        }),
{
    let t = strip_start_char(s, c);
    lemma_strip_start_suffix(s, c);
    lemma_strip_end_prefix(t, c);
    let r = strip_char(s, c);
    let k = s.len() - t.len();
    assert(r == t.take(r.len() as int));
    assert(t.take(r.len() as int) =~= s.subrange(k, k + r.len()));
    if r.len() > 0 {
        assert(r[0] == t[0]);
    }
}

proof fn lemma_strip_char_wrapped(x: Seq<char>, c: char)
    requires
        x.len() == 0 || (x[0] != c && x.last() != c),
    ensures
        strip_char(seq![c] + x + seq![c], c) == x,
{
    let s = seq![c] + x + seq![c];
    assert(s.drop_first() =~= x + seq![c]);
    if x.len() > 0 {
        assert((x + seq![c])[0] == x[0]);
        assert(strip_start_char(x + seq![c], c) == x + seq![c]);
        assert(strip_start_char(s, c) == x + seq![c]);
        assert((x + seq![c]).drop_last() =~= x);
        assert(strip_end_char(x, c) == x);
    } else {
        assert(x + seq![c] =~= seq![c]);
        assert(seq![c].drop_first() =~= Seq::<char>::empty());
        assert(strip_start_char(Seq::<char>::empty(), c) == Seq::<char>::empty());
        assert(strip_start_char(seq![c], c) == Seq::<char>::empty());
        assert(strip_start_char(s, c) == Seq::<char>::empty());
        assert(strip_end_char(Seq::<char>::empty(), c) == Seq::<char>::empty());
        assert(x =~= Seq::<char>::empty());
    }
}

proof fn lemma_trim_plain_ends(s: Seq<char>)
    requires
        s.len() > 0,
        !is_ws(s[0]),
        !is_ws(s.last()),
    ensures
        trim(s) == s,
{
    assert(trim_start(s) == s);
    assert(trim_end(s) == s);
}

/// A directory URL is rooted, ends with `/`, and normalizing it again
/// gives it back unchanged: every URL the library makes for a page or
/// alias is a fixed point.
pub proof fn law_directory_urls_are_normal(url: Seq<char>)
    ensures
        directory_url(url) matches Ok(u) ==> u.len() > 0 && u[0] == '/' && u.last() == '/'
            && !has_unsafe_char(u) && directory_url(u) == Ok::<Seq<char>, UrlError>(u),
{
    let t = trim(url);
    if t.len() > 0 && !has_unsafe_char(t) {
        let clean = strip_char(t, '/');
        lemma_strip_char_inner(t, '/');
        let k = t.len() - strip_start_char(t, '/').len();
        assert forall|ch: char| clean.contains(ch) implies t.contains(ch) by {
            let i = choose|i: int| 0 <= i < clean.len() && clean[i] == ch;
            assert(t[k + i] == ch);
        }
        if clean.len() == 0 {
            let u = seq!['/'];
            lemma_trim_plain_ends(u);
            assert(!u.contains('\\') && !u.contains('?') && !u.contains('#')) by {
                if u.contains('?') {
                    assert(u[0] == '/');
                }
            }
            assert(strip_start_char(u, '/') == Seq::<char>::empty()) by {
                assert(u.drop_first() =~= Seq::<char>::empty());
                assert(strip_start_char(Seq::<char>::empty(), '/') == Seq::<char>::empty());
            }
            assert(strip_end_char(Seq::<char>::empty(), '/') == Seq::<char>::empty());
            assert(strip_char(u, '/') =~= Seq::<char>::empty());
        } else if crate::url::all_segments_ok(crate::text::split_char(clean, '/')) {
            let u = seq!['/'] + clean + seq!['/'];
            lemma_trim_plain_ends(u);
            lemma_strip_char_wrapped(clean, '/');
            assert forall|ch: char| u.contains(ch) && ch != '/' implies clean.contains(ch) by {
                let i = choose|i: int| 0 <= i < u.len() && u[i] == ch;
                assert(1 <= i < u.len() - 1);
                assert(clean[i - 1] == ch);
            }
        }
    }
}

proof fn lemma_scalar_bytes_not_percent(c: char)
    requires
        c != '%',
    ensures
        forall|k: int| 0 <= k < encode_scalar(c as u32).len() ==> #[trigger] encode_scalar(c as u32)[k]
            != 37u8,
{
    let x = c as u32;
    vstd::utf8::char_is_scalar(c);
    if has_width_1_encoding(x) {
        assert(x != 37u32);
        assert(leading_byte_width_1(x) != 37u8) by (bit_vector)
            requires
                x <= 0x7F,
                x != 37u32,
        ;
    } else {
        assert(leading_byte_width_2(x) != 37u8) by (bit_vector);
        assert(leading_byte_width_3(x) != 37u8) by (bit_vector);
        assert(leading_byte_width_4(x) != 37u8) by (bit_vector);
        assert(last_continuation_byte(x) != 37u8) by (bit_vector);
        assert(second_last_continuation_byte(x) != 37u8) by (bit_vector);
        assert(third_last_continuation_byte(x) != 37u8) by (bit_vector);
    }
}

proof fn lemma_encoding_has_no_percent(s: Seq<char>)
    requires
        !s.contains('%'),
    ensures
        forall|k: int| 0 <= k < encode_utf8(s).len() ==> #[trigger] encode_utf8(s)[k] != 37u8,
    decreases s.len(),
{
    if s.len() > 0 {
        assert(s[0] != '%');
        lemma_scalar_bytes_not_percent(s[0]);
        assert(!s.drop_first().contains('%')) by {
            if s.drop_first().contains('%') {
                let i = choose|i: int| 0 <= i < s.drop_first().len() && s.drop_first()[i] == '%';
                assert(s[i + 1] == '%');
            }
        }
        lemma_encoding_has_no_percent(s.drop_first());
        let head = encode_scalar(s[0] as u32);
        let tail = encode_utf8(s.drop_first());
        assert(encode_utf8(s) == head + tail);
        assert forall|k: int| 0 <= k < encode_utf8(s).len() implies #[trigger] encode_utf8(s)[k]
            != 37u8 by {
            if k < head.len() {
                assert(encode_utf8(s)[k] == head[k]);
            } else {
                assert(encode_utf8(s)[k] == tail[k - head.len()]);
            }
        }
    }
}

proof fn lemma_decode_plain_bytes(b: Seq<u8>, i: int)
    requires
        0 <= i <= b.len(),
        forall|k: int| i <= k < b.len() ==> #[trigger] b[k] != 37u8,
    ensures
        decode_from(b, i) == Some(b.skip(i)),
    decreases b.len() - i,
{
    if i < b.len() {
        lemma_decode_plain_bytes(b, i + 1);
        assert(seq![b[i]] + b.skip(i + 1) =~= b.skip(i));
    } else {
        assert(b.skip(i) =~= Seq::<u8>::empty());
    }
}

/// Text without `%` decodes to itself: percent decoding only changes
/// escapes.
pub proof fn law_plain_paths_decode_to_themselves(s: Seq<char>)
    requires
        !s.contains('%'),
    ensures
        percent_decoded(s) == Some(s),
{
    let b = encode_utf8(s);
    lemma_encoding_has_no_percent(s);
    lemma_decode_plain_bytes(b, 0);
    assert(b.skip(0) =~= b);
    encode_utf8_valid_utf8(s);
    encode_utf8_decode_utf8(s);
}

/// A slug is never empty and never starts or ends with `-`.
pub proof fn law_slugs_are_trimmed_words(s: Seq<char>)
    ensures
        slug_of(s).len() > 0,
        slug_of(s)[0] != '-',
        slug_of(s).last() != '-',
{
    lemma_strip_char_inner(crate::util::slug_fold(s).0, '-');
}

/// Whether a character has a meaning in XML markup.
pub open spec fn is_xml_special(c: char) -> bool {
    c == '<' || c == '>' || c == '"' || c == '\''
}

/// Text escaped for XML holds no `<`, `>`, `"` or `'`, so it cannot end
/// an element or an attribute value.
pub proof fn law_escaped_xml_has_no_markup(s: Seq<char>)
    ensures
        forall|k: int| 0 <= k < escaped(Escape::Xml, s).len() ==> !is_xml_special(
            #[trigger] escaped(Escape::Xml, s)[k],
        ),
    decreases s.len(),
{
    if s.len() > 0 {
        law_escaped_xml_has_no_markup(s.drop_last());
        let a = escaped(Escape::Xml, s.drop_last());
        let b = escape_char(Escape::Xml, s.last());
        assert forall|k: int| 0 <= k < escaped(Escape::Xml, s).len() implies !is_xml_special(
            #[trigger] escaped(Escape::Xml, s)[k],
        ) by {
            if k < a.len() {
                assert(escaped(Escape::Xml, s)[k] == a[k]);
            } else {
                assert(escaped(Escape::Xml, s)[k] == b[k - a.len()]);
            }
        }
    }
}

/// Whether a character would break a one-line Typst string literal.
pub open spec fn is_raw_control(c: char) -> bool {
    c == '\n' || c == '\r' || c == '\t'
}

/// A Typst string literal is quoted at both ends and holds no raw
/// newline, carriage return or tab.
pub proof fn law_typst_strings_stay_on_one_line(s: Seq<char>)
    ensures
        typst_string_of(s).len() >= 2,
        typst_string_of(s)[0] == '"',
        typst_string_of(s).last() == '"',
        forall|k: int| 0 <= k < typst_string_of(s).len() ==> !is_raw_control(
            #[trigger] typst_string_of(s)[k],
        ),
{
    lemma_typst_escape_plain(s);
    let e = typst_escape(s);
    assert forall|k: int| 0 <= k < typst_string_of(s).len() implies !is_raw_control(
        #[trigger] typst_string_of(s)[k],
    ) by {
        if 1 <= k < e.len() + 1 {
            assert(typst_string_of(s)[k] == e[k - 1]);
        }
    }
}

proof fn lemma_typst_escape_plain(s: Seq<char>)
    ensures
        forall|k: int| 0 <= k < typst_escape(s).len() ==> !is_raw_control(#[trigger] typst_escape(s)[k]),
    decreases s.len(),
{
    if s.len() > 0 {
        lemma_typst_escape_plain(s.drop_last());
        let a = typst_escape(s.drop_last());
        let b = typst_escape_char(s.last());
        assert forall|k: int| 0 <= k < typst_escape(s).len() implies !is_raw_control(
            #[trigger] typst_escape(s)[k],
        ) by {
            if k < a.len() {
                assert(typst_escape(s)[k] == a[k]);
            } else {
                assert(typst_escape(s)[k] == b[k - a.len()]);
            }
        }
    }
}

proof fn lemma_split_words_nonempty(s: Seq<char>)
    ensures
        forall|k: int| 0 <= k < split_fold(s).0.len() ==> (#[trigger] split_fold(s).0[k]).len() > 0,
    decreases s.len(),
{
    if s.len() > 0 {
        lemma_split_words_nonempty(s.drop_last());
        let st = split_fold(s.drop_last());
        assert(split_fold(s) == split_step(st, s.last()));
        assert forall|k: int| 0 <= k < split_fold(s).0.len() implies (#[trigger] split_fold(
            s,
        ).0[k]).len() > 0 by {
            if k < st.0.len() {
                assert(split_fold(s).0[k] == st.0[k]);
            }
        }
    }
}

/// A split command line is never empty and holds no empty word.
pub proof fn law_script_words_are_nonempty(s: Seq<char>)
    ensures
        script_words(s) matches Ok(w) ==> w.len() > 0 && forall|k: int| 0 <= k < w.len() ==> (
        #[trigger] w[k]).len() > 0,
{
    lemma_split_words_nonempty(s);
}

/// Every page URL is a rooted directory URL that normalizes to itself.
pub proof fn law_page_urls_are_directory_urls(
    site_permalink: Option<Seq<char>>,
    rel: Seq<char>,
    section: Seq<char>,
    slug: Option<Seq<char>>,
    permalink: Option<Seq<char>>,
    date: Option<Seq<char>>,
)
    ensures
        address_of(site_permalink, rel, section, slug, permalink, date) matches Ok((url, _, _, _))
            ==> url[0] == '/' && url.last() == '/' && directory_url(url) == Ok::<
            Seq<char>,
            UrlError,
        >(url),
{
    match address_of(site_permalink, rel, section, slug, permalink, date) {
        Ok((url, s, path, _)) => {
            let filename = crate::permalink::page_filename_of(rel);
            let pattern = match permalink {
                Some(p) => Some(p),
                None => site_permalink,
            };
            let raw = match pattern {
                Some(p) => crate::permalink::permalink_of(p, section, s, path, filename, date),
                None => Ok(crate::permalink::default_url_of(path, s, slug is Some)),
            };
            match raw {
                Ok(u) => law_directory_urls_are_normal(u),
                Err(_) => {},
            }
        },
        Err(_) => {},
    }
}

proof fn lemma_split_append_plain(s: Seq<char>, y: Seq<char>, c: char)
    requires
        !y.contains(c),
    ensures
        split_char(s + y, c) == split_char(s, c).update(
            split_char(s, c).len() - 1,
            split_char(s, c).last() + y,
        ),
        split_char(s + y, c).len() == split_char(s, c).len(),
    decreases y.len(),
{
    crate::text::lemma_split_char_nonempty(s, c);
    if y.len() == 0 {
        assert(s + y =~= s);
        assert(split_char(s, c).last() + y =~= split_char(s, c).last());
        assert(split_char(s, c).update(split_char(s, c).len() - 1, split_char(s, c).last())
            =~= split_char(s, c));
    } else {
        let y0 = y.drop_last();
        assert(!y0.contains(c)) by {
            if y0.contains(c) {
                let i = choose|i: int| 0 <= i < y0.len() && y0[i] == c;
                assert(y[i] == c);
            }
        }
        assert(y.last() != c) by {
            assert(y[y.len() - 1] == y.last());
        }
        lemma_split_append_plain(s, y0, c);
        assert((s + y).drop_last() =~= s + y0);
        assert((s + y).last() == y.last());
        let prev = split_char(s + y0, c);
        let base = split_char(s, c);
        let n = base.len();
        assert(split_char(s + y, c) == prev.update(prev.len() - 1, prev.last().push(y.last())));
        assert(prev.len() == n);
        assert(prev.last() == base.last() + y0);
        assert((base.last() + y0).push(y.last()) =~= base.last() + y);
        assert(split_char(s + y, c) =~= split_char(s, c).update(
            split_char(s, c).len() - 1,
            split_char(s, c).last() + y,
        ));
    }
}

/// Whether every `/`-separated piece of a path is neither `..` nor holds
/// `\`.
pub open spec fn no_escaping_piece(rest: Seq<char>) -> bool {
    forall|k: int|
        0 <= k < split_char(rest, '/').len() ==> !bad_request_piece(#[trigger] split_char(rest, '/')[k])
}

proof fn lemma_push_pieces_under(public: Seq<char>, parts: Seq<Seq<char>>)
    requires
        forall|k: int| 0 <= k < parts.len() ==> !bad_request_piece(#[trigger] parts[k]),
        forall|k: int| 0 <= k < parts.len() ==> !(#[trigger] parts[k]).contains('/'),
    ensures
        starts_with(push_pieces(public, parts), public),
        ({
            let rest = push_pieces(public, parts).skip(public.len() as int);
            &&& no_escaping_piece(rest)
            &&& (rest.len() == 0 || rest.last() != '/')
        }),
    decreases parts.len(),
{
    if parts.len() == 0 {
        assert(public.subrange(0, public.len() as int) =~= public);
        assert(public.skip(public.len() as int) =~= Seq::<char>::empty());
        assert(split_char(Seq::<char>::empty(), '/') =~= seq![Seq::<char>::empty()]);
    } else {
        lemma_push_pieces_under(public, parts.drop_last());
        let prev = push_pieces(public, parts.drop_last());
        let rest = prev.skip(public.len() as int);
        assert(prev =~= public + rest);
        let name = parts.last();
        assert(!bad_request_piece(name) && !name.contains('/')) by {
            assert(parts[parts.len() - 1] == name);
        }
        if !skipped_piece(name) {
            let out = join_path_of(prev, name);
            assert(name.len() > 0);
            assert(name[0] != '/');
            assert(split_char(name, '/') =~= seq![name]) by {
                lemma_split_append_plain(Seq::<char>::empty(), name, '/');
                assert(Seq::<char>::empty() + name =~= name);
            }
            assert(name.last() != '/') by {
                assert(name[name.len() - 1] == name.last());
            }
            if prev.len() == 0 {
                assert(out == name);
                assert(public.len() == 0);
                assert(out.skip(0) =~= name);
                assert(out.subrange(0, 0) =~= public);
            } else if prev.last() == '/' {
                assert(rest.len() == 0);
                assert(out == public + name);
                assert(out.subrange(0, public.len() as int) =~= public);
                assert(out.skip(public.len() as int) =~= name);
            } else {
                let rest2 = rest + seq!['/'] + name;
                assert(out =~= public + rest2);
                assert(out.subrange(0, public.len() as int) =~= public);
                assert(out.skip(public.len() as int) =~= rest2);
                lemma_split_append_plain(rest + seq!['/'], name, '/');
                assert((rest + seq!['/']).drop_last() =~= rest);
                assert(split_char(rest + seq!['/'], '/') == split_char(rest, '/').push(
                    Seq::<char>::empty(),
                ));
                assert(Seq::<char>::empty() + name =~= name);
                assert(split_char(rest2, '/') =~= split_char(rest, '/').push(name));
                assert(rest2.last() == name.last());
            }
        }
    }
}

/// A request path never leaves the site: the file it names lies under the
/// public directory, and no piece after it is `..` or holds `\`.
pub proof fn law_request_paths_stay_under_public(public: Seq<char>, uri: Seq<char>)
    ensures
        candidate_path_of(public, uri) matches Some(p) ==> starts_with(p, public) && no_escaping_piece(
            p.skip(public.len() as int),
        ),
{
    match crate::serve::percent_decoded(crate::serve::before_char(uri, '?')) {
        Some(d) => {
            if !d.contains('\0') {
                let parts = split_char(crate::text::strip_start_char(d, '/'), '/');
                if !(exists|k: int| 0 <= k < parts.len() && bad_request_piece(#[trigger] parts[k])) {
                    lemma_split_char_pieces(crate::text::strip_start_char(d, '/'), '/');
                    lemma_push_pieces_under(public, parts);
                }
            }
        },
        None => {},
    }
}

/// Search tokens after de-duplication are distinct and non-empty, come
/// from the input, and are no more than the limit (at least one).
pub proof fn law_search_tokens_are_distinct(tokens: Seq<Seq<char>>, limit: nat)
    ensures
        ({
            let out = crate::search::dedupe(tokens, limit);
            &&& out.no_duplicates()
            &&& forall|k: int| 0 <= k < out.len() ==> (#[trigger] out[k]).len() > 0 && tokens.contains(
                out[k],
            )
            &&& out.len() <= (if limit < 1 {
                1
            } else {
                limit
            })
        }),
    decreases tokens.len(),
{
    if tokens.len() > 0 {
        law_search_tokens_are_distinct(tokens.drop_last(), limit);
        let prev = crate::search::dedupe(tokens.drop_last(), limit);
        let out = crate::search::dedupe(tokens, limit);
        assert forall|k: int| 0 <= k < out.len() implies (#[trigger] out[k]).len() > 0
            && tokens.contains(out[k]) by {
            if k < prev.len() {
                assert(out[k] == prev[k]);
                let j = choose|j: int| 0 <= j < tokens.drop_last().len() && tokens.drop_last()[j]
                    == prev[k];
                assert(tokens[j] == prev[k]);
            } else {
                assert(tokens[tokens.len() - 1] == tokens.last());
            }
        }
    }
}

/// Whether two component lists overlap: equal, or one inside the other.
pub open spec fn overlaps(a: Seq<Seq<char>>, b: Seq<Seq<char>>) -> bool {
    a == b || crate::policy::comps_prefix(a, b) || crate::policy::comps_prefix(b, a)
}

proof fn lemma_static_errors_found(out: Seq<Seq<char>>, roots: Seq<Seq<char>>, k: int)
    requires
        0 <= k < roots.len(),
        overlaps(out, crate::policy::clean_comps(roots[k])),
    ensures
        crate::policy::static_errors(out, roots).len() > 0,
    decreases roots.len(),
{
    if k < roots.len() - 1 {
        assert(roots.drop_last()[k] == roots[k]);
        lemma_static_errors_found(out, roots.drop_last(), k);
    } else {
        assert(roots.last() == roots[k]);
    }
}

/// A layout whose output directory is the project root, or equals, lies
/// inside or contains the content, template or cache directory or a
/// static asset directory, is refused with at least one problem.
pub proof fn law_dangerous_layouts_are_rejected(
    root: Seq<char>,
    content_dir: Seq<char>,
    templates_dir: Seq<char>,
    static_dir: Seq<char>,
    out_dir: Seq<char>,
    cache_dir: Seq<char>,
    theme: Option<Seq<char>>,
    content_root: Seq<char>,
    templates_root: Seq<char>,
    static_roots: Seq<Seq<char>>,
    out_root: Seq<char>,
)
    ensures
        ({
            let out = crate::policy::clean_comps(out_root);
            let cache = crate::policy::clean_comps(
                join_path_of(crate::permalink::rebuild_path(crate::policy::clean_comps(root)), cache_dir),
            );
            (out == crate::policy::clean_comps(root) || overlaps(
                out,
                crate::policy::clean_comps(content_root),
            ) || overlaps(out, crate::policy::clean_comps(templates_root)) || overlaps(out, cache)
                || exists|k: int|
                0 <= k < static_roots.len() && overlaps(
                    out,
                    crate::policy::clean_comps(#[trigger] static_roots[k]),
                )) ==> crate::policy::policy_errors(
                root,
                content_dir,
                templates_dir,
                static_dir,
                out_dir,
                cache_dir,
                theme,
                content_root,
                templates_root,
                static_roots,
                out_root,
            ).len() > 0
        }),
{
    let out = crate::policy::clean_comps(out_root);
    if exists|k: int|
        0 <= k < static_roots.len() && overlaps(
            out,
            crate::policy::clean_comps(#[trigger] static_roots[k]),
        ) {
        let k = choose|k: int|
            0 <= k < static_roots.len() && overlaps(
                out,
                crate::policy::clean_comps(#[trigger] static_roots[k]),
            );
        lemma_static_errors_found(out, static_roots, k);
    }
}

/// Whether no route of a site is refused.
pub open spec fn routes_accepted(steps: Seq<crate::routes::RouteStep>) -> bool {
    forall|i: int| 0 <= i < steps.len() ==> !#[trigger] crate::routes::step_fails(steps, i)
}

/// Whether every route claims a URL (none is refused as unsafe) and no two
/// claim the same.
pub open spec fn routes_distinct(steps: Seq<crate::routes::RouteStep>) -> bool {
    &&& forall|i: int| 0 <= i < steps.len() ==> (#[trigger] steps[i]).1 is Ok
    &&& forall|i: int, j: int|
        #![trigger steps[i], steps[j]]
        0 <= i < j < steps.len() ==> steps[i].1 != steps[j].1
}

/// Routes that pass validation are all safe and all distinct: no two
/// pages, aliases or generated pages share a URL.
pub proof fn law_accepted_routes_are_distinct(
    pages: Seq<crate::model::Page>,
    generated: Seq<crate::model::GeneratedPage>,
)
    ensures
        routes_accepted(crate::routes::route_steps(pages, generated)) ==> routes_distinct(
            crate::routes::route_steps(pages, generated),
        ),
{
    let steps = crate::routes::route_steps(pages, generated);
    if routes_accepted(steps) {
        assert forall|i: int| 0 <= i < steps.len() implies (#[trigger] steps[i]).1 is Ok by {
            assert(!crate::routes::step_fails(steps, i));
        }
        assert forall|i: int, j: int|
            #![trigger steps[i], steps[j]]
            0 <= i < j < steps.len() implies steps[i].1 != steps[j].1 by {
            assert(!crate::routes::step_fails(steps, i));
            assert(!crate::routes::step_fails(steps, j));
            if steps[i].1 == steps[j].1 {
                assert(crate::routes::collides(steps, j));
            }
        }
    }
}

proof fn lemma_text_lt_asymmetric(a: Seq<char>, b: Seq<char>)
    ensures
        crate::feed::text_lt(a, b) ==> !crate::feed::text_lt(b, a),
    decreases a.len(),
{
    if a.len() > 0 && b.len() > 0 && a[0] == b[0] {
        lemma_text_lt_asymmetric(a.drop_first(), b.drop_first());
    }
}

proof fn lemma_precedes_asymmetric(a: crate::model::PageSummary, b: crate::model::PageSummary)
    ensures
        crate::feed::precedes(a, b) ==> !crate::feed::precedes(b, a),
{
    let da = crate::model::opt_text(a.date);
    let db = crate::model::opt_text(b.date);
    match (da, db) {
        (Some(x), Some(y)) => lemma_text_lt_asymmetric(x, y),
        _ => {},
    }
    lemma_text_lt_asymmetric(a.url@, b.url@);
    lemma_text_lt_asymmetric(b.url@, a.url@);
    if let (Some(x), Some(y)) = (da, db) {
        lemma_text_lt_asymmetric(y, x);
    }
}

/// Whether no listed page should come before the page listed just ahead
/// of it.
pub open spec fn in_feed_order(order: Seq<int>, pages: Seq<crate::model::PageSummary>) -> bool {
    forall|k: int|
        0 <= k < order.len() - 1 ==> !crate::feed::precedes(
            #[trigger] pages[order[k + 1]],
            pages[order[k]],
        )
}

proof fn lemma_insert_keeps_order(order: Seq<int>, x: int, pages: Seq<crate::model::PageSummary>)
    requires
        in_feed_order(order, pages),
    ensures
        in_feed_order(crate::feed::insert_in_order(order, x, pages), pages),
        crate::feed::insert_in_order(order, x, pages).len() == order.len() + 1,
        crate::feed::insert_in_order(order, x, pages).last() == x || (order.len() > 0
            && crate::feed::insert_in_order(order, x, pages).last() == order.last()),
    decreases order.len(),
{
    let out = crate::feed::insert_in_order(order, x, pages);
    if order.len() == 0 {
        assert(out =~= seq![x]);
    } else if crate::feed::precedes(pages[x], pages[order.last()]) {
        let d = order.drop_last();
        assert forall|k: int| 0 <= k < d.len() - 1 implies !crate::feed::precedes(
            #[trigger] pages[d[k + 1]],
            pages[d[k]],
        ) by {
            assert(d[k + 1] == order[k + 1]);
            assert(d[k] == order[k]);
        }
        lemma_insert_keeps_order(d, x, pages);
        let inner = crate::feed::insert_in_order(d, x, pages);
        assert(out == inner.push(order.last()));
        lemma_precedes_asymmetric(pages[x], pages[order.last()]);
        if inner.last() != x {
            assert(inner.last() == d.last());
            assert(d.last() == order[order.len() - 2]);
            assert(order.last() == order[order.len() - 1]);
            assert(!crate::feed::precedes(pages[order[order.len() - 2 + 1]], pages[order[order.len() - 2]]));
        }
        assert forall|k: int| 0 <= k < out.len() - 1 implies !crate::feed::precedes(
            #[trigger] pages[out[k + 1]],
            pages[out[k]],
        ) by {
            if k < inner.len() - 1 {
                assert(out[k + 1] == inner[k + 1]);
                assert(out[k] == inner[k]);
            } else {
                assert(out[k] == inner.last());
                assert(out[k + 1] == order.last());
            }
        }
    } else {
        assert forall|k: int| 0 <= k < out.len() - 1 implies !crate::feed::precedes(
            #[trigger] pages[out[k + 1]],
            pages[out[k]],
        ) by {
            if k < order.len() - 1 {
                assert(out[k + 1] == order[k + 1]);
                assert(out[k] == order[k]);
            } else {
                assert(out[k] == order.last());
                assert(out[k + 1] == x);
            }
        }
    }
}

proof fn lemma_sort_keeps_order(idx: Seq<int>, pages: Seq<crate::model::PageSummary>)
    ensures
        in_feed_order(crate::feed::sort_in_order(idx, pages), pages),
        crate::feed::sort_in_order(idx, pages).len() == idx.len(),
    decreases idx.len(),
{
    if idx.len() > 0 {
        lemma_sort_keeps_order(idx.drop_last(), pages);
        lemma_insert_keeps_order(crate::feed::sort_in_order(idx.drop_last(), pages), idx.last(), pages);
    }
}

/// A feed lists its pages in feed order (newer first, then by URL), and
/// never more than its limit when it has one.
pub proof fn law_feeds_are_ordered_and_limited(
    cfg: crate::config::Config,
    pages: Seq<crate::model::PageSummary>,
    spec: crate::config::FeedConfig,
)
    ensures
        in_feed_order(crate::feed::feed_order(cfg, pages, spec), pages),
        spec.limit > 0 ==> crate::feed::feed_order(cfg, pages, spec).len() <= spec.limit,
{
    let sections = crate::feed::covered_sections(
        crate::model::opt_text(spec.section),
        crate::script::string_views(spec.sections@),
        crate::script::string_views(cfg.feed_sections@),
    );
    let sorted = crate::feed::sort_in_order(crate::feed::selected_pages(pages, sections), pages);
    lemma_sort_keeps_order(crate::feed::selected_pages(pages, sections), pages);
    let order = crate::feed::feed_order(cfg, pages, spec);
    assert forall|k: int| 0 <= k < order.len() - 1 implies !crate::feed::precedes(
        #[trigger] pages[order[k + 1]],
        pages[order[k]],
    ) by {
        assert(order[k] == sorted[k]);
        assert(order[k + 1] == sorted[k + 1]);
    }
}

/// A listing puts page summaries in order, no summary coming before one
/// ahead of it, and keeps every summary, as often as it occurs.
pub proof fn law_listings_are_sorted(items: Seq<crate::model::PageSummary>, sort_by: Seq<char>)
    ensures
        crate::listing::in_order(
            crate::listing::stable_sorted(
                items,
                crate::listing::summary_sort_key(),
                crate::listing::sort_order_of(sort_by),
            ),
            crate::listing::summary_sort_key(),
            crate::listing::sort_order_of(sort_by),
        ),
        crate::listing::stable_sorted(
            items,
            crate::listing::summary_sort_key(),
            crate::listing::sort_order_of(sort_by),
        ).to_multiset() == items.to_multiset(),
{
    crate::listing::lemma_stable_sorted(
        items,
        crate::listing::summary_sort_key(),
        crate::listing::sort_order_of(sort_by),
    );
}

/// Every item of a paginated list falls on one of its pages: the pages
/// hold room for all items, and no page after the first is empty.
pub proof fn law_pages_cover_the_list(count: nat, paginate_by: Option<usize>)
    ensures
        ({
            let size = crate::generated::page_size_of(count, paginate_by);
            let total = crate::generated::page_count_of(count, size);
            &&& size > 0
            &&& total >= 1
            &&& count <= total * size
            &&& (total - 1) * size < count || (count == 0 && total == 1)
        }),
{
    let size = crate::generated::page_size_of(count, paginate_by);
    let m: nat = if count > 0 {
        count
    } else {
        1
    };
    let q = ((m + size - 1) as int) / (size as int);
    assert(q >= 1 && q * size >= m && (q - 1) * size < m) by (nonlinear_arith)
        requires
            size > 0,
            m >= 1,
            q == ((m + size - 1) as int) / (size as int),
    ;
    if count == 0 {
        assert(q == 1) by (nonlinear_arith)
            requires
                size > 0,
                m == 1,
                q == ((m + size - 1) as int) / (size as int),
        ;
    }
}

/// Previous and next links run both ways: the page after a page links
/// back to it.
pub proof fn law_neighbours_link_both_ways(pages: Seq<crate::model::Page>, l: Seq<int>, k: int)
    requires
        0 <= k,
        k + 1 < l.len(),
    ensures
        crate::listing::listed_page(pages, l, k).next_url == Some(pages[l[k + 1]].url),
        crate::listing::listed_page(pages, l, k).next_title == Some(pages[l[k + 1]].title),
        crate::listing::listed_page(pages, l, k + 1).prev_url == Some(pages[l[k]].url),
        crate::listing::listed_page(pages, l, k + 1).prev_title == Some(pages[l[k]].title),
{
}

/// A build considers each section of its pages once, in ascending order
/// of name, and no other section.
pub proof fn law_sections_listed_once_in_order(pages: Seq<crate::model::PageSummary>)
    ensures
        crate::generated::ascending(crate::generated::section_names(pages)),
        forall|i: int|
            0 <= i < pages.len() ==> crate::generated::section_names(pages).contains(
                #[trigger] pages[i].section@,
            ),
        forall|x: Seq<char>|
            #[trigger] crate::generated::section_names(pages).contains(x) ==> exists|i: int|
                0 <= i < pages.len() && pages[i].section@ == x,
{
    crate::generated::lemma_section_names(pages);
}

/// Every day count names a real calendar day: a month from 1 to 12 and a
/// day of the month from 1 to 31.
pub proof fn law_civil_dates_are_valid(days: nat)
    ensures
        1 <= crate::dates::civil_of(days).1 <= 12,
        1 <= crate::dates::civil_of(days).2 <= 31,
{
    crate::dates::lemma_civil_valid(days);
}

/// A later cache entry for a key replaces an earlier one: reading a key
/// gives back what was last recorded for it, and other keys keep theirs.
pub proof fn law_cache_read_after_write(
    cache: crate::model::BuildCache,
    key: Seq<char>,
    entry: crate::model::CacheEntry,
    other: Seq<char>,
)
    requires
        other != key,
    ensures
        crate::cache::cache_map(cache).insert(key, entry).contains_key(key),
        crate::cache::cache_map(cache).insert(key, entry)[key] == entry,
        crate::cache::cache_map(cache).insert(key, entry).contains_key(other)
            == crate::cache::cache_map(cache).contains_key(other),
        crate::cache::cache_map(cache).contains_key(other) ==> crate::cache::cache_map(cache).insert(
            key,
            entry,
        )[other] == crate::cache::cache_map(cache)[other],
{
}


/// A wrapper body whose dependencies do not move is the page body itself:
/// rewriting with no moved paths only ends each line with a newline.
pub proof fn law_unmoved_dependencies_keep_the_body(body: Seq<char>)
    ensures
        crate::wrappers::body_rewrite(crate::text::lines(body), Map::empty()).0
            == crate::wrappers::terminated_lines(crate::text::lines(body)),
{
    crate::wrappers::lemma_body_rewrite_unmoved(crate::text::lines(body));
}

/// The two internal link keys of a page: `@/` and its content path, and
/// `@/` and that path without `.typ`.
pub open spec fn page_link_keys(p: crate::model::Page) -> (Seq<char>, Seq<char>) {
    let rel = crate::links::slashed(p.rel@);
    (seq!['@', '/'] + rel, seq!['@', '/'] + crate::links::trim_typ_suffixes(rel))
}

/// Every page is reached by both of its link keys, unless a later page
/// claims one of them: the link map sends each key to the URL of the last
/// page that has it.
pub proof fn law_link_map_reaches_each_page(pages: Seq<crate::model::Page>, i: int)
    requires
        0 <= i < pages.len(),
        forall|j: int|
            i < j < pages.len() ==> {
                let kj = #[trigger] page_link_keys(pages[j]);
                let ki = page_link_keys(pages[i]);
                kj.0 != ki.0 && kj.0 != ki.1 && kj.1 != ki.0 && kj.1 != ki.1
            },
    ensures
        crate::links::link_map_of(pages).contains_key(page_link_keys(pages[i]).0),
        crate::links::link_map_of(pages)[page_link_keys(pages[i]).0] == pages[i].url@,
        crate::links::link_map_of(pages).contains_key(page_link_keys(pages[i]).1),
        crate::links::link_map_of(pages)[page_link_keys(pages[i]).1] == pages[i].url@,
    decreases pages.len(),
{
    if i < pages.len() - 1 {
        let rest = pages.drop_last();
        assert forall|j: int| i < j < rest.len() implies {
            let kj = #[trigger] page_link_keys(rest[j]);
            let ki = page_link_keys(rest[i]);
            kj.0 != ki.0 && kj.0 != ki.1 && kj.1 != ki.0 && kj.1 != ki.1
        } by {
            assert(rest[j] == pages[j]);
            assert(page_link_keys(pages[j]) == page_link_keys(rest[j]));
        }
        law_link_map_reaches_each_page(rest, i);
        assert(rest[i] == pages[i]);
        assert(page_link_keys(pages[pages.len() - 1]) == page_link_keys(pages.last()));
    }
}


/// Setting a field of a collection schema keeps the fields in name order
/// with no name twice, holds the new schema under its name, keeps every
/// field of another name, and adds nothing else.
pub proof fn law_schema_fields_set_replaces_or_adds(
    fields: Seq<(String, crate::schema::MetadataFieldSchema)>,
    name: String,
    schema: crate::schema::MetadataFieldSchema,
)
    requires
        crate::schema::names_increase(fields),
    ensures
        crate::schema::names_increase(crate::schema::insert_field(fields, name, schema)),
        crate::schema::insert_field(fields, name, schema).contains((name, schema)),
        forall|j: int|
            0 <= j < fields.len() && fields[j].0@ != name@ ==> crate::schema::insert_field(
                fields,
                name,
                schema,
            ).contains(#[trigger] fields[j]),
        forall|k: int|
            0 <= k < crate::schema::insert_field(fields, name, schema).len() ==> (
            #[trigger] crate::schema::insert_field(fields, name, schema)[k] == (name, schema)
                || fields.contains(crate::schema::insert_field(fields, name, schema)[k])),
{
    crate::schema::lemma_insert_field(fields, name, schema);
}


/// Discovered pages are put in URL order: no page's URL comes before that
/// of a page ahead of it, and the same pages come out as went in.
pub proof fn law_pages_are_sorted_by_url(pages: Seq<crate::model::Page>)
    ensures
        forall|i: int, j: int|
            0 <= i < j < pages.len() ==> !crate::feed::text_lt(
                (#[trigger] crate::listing::stable_sorted(
                    pages,
                    crate::listing::page_sort_key(),
                    crate::listing::SortOrder::UrlAsc,
                )[j]).url@,
                (#[trigger] crate::listing::stable_sorted(
                    pages,
                    crate::listing::page_sort_key(),
                    crate::listing::SortOrder::UrlAsc,
                )[i]).url@,
            ),
        crate::listing::stable_sorted(
            pages,
            crate::listing::page_sort_key(),
            crate::listing::SortOrder::UrlAsc,
        ).to_multiset() == pages.to_multiset(),
{
    let key = crate::listing::page_sort_key();
    let o = crate::listing::SortOrder::UrlAsc;
    crate::listing::lemma_stable_sorted(pages, key, o);
    let t = crate::listing::stable_sorted(pages, key, o);
    assert forall|i: int, j: int| 0 <= i < j < pages.len() implies !crate::feed::text_lt(
        (#[trigger] t[j]).url@,
        (#[trigger] t[i]).url@,
    ) by {
        assert(!crate::listing::key_before(key(t[j]), key(t[i]), o));
    }
}


/// Drafts are left out unless drafts are built; by default a page dated
/// after today and one that expired before today are left out too; and a
/// site that builds future and expired pages leaves out only drafts.
pub proof fn law_unpublished_pages_are_skipped(
    meta: crate::model::FrontMatter,
    cfg: crate::config::Config,
    drafts: bool,
    today: Seq<char>,
)
    ensures
        meta.draft && !drafts ==> crate::discover::skip_of(meta, cfg, drafts, today) == Some(
            crate::discover::PageSkip::Draft,
        ),
        !(meta.draft && !drafts) && !cfg.build_future && crate::discover::future_of(meta.date, today)
            ==> crate::discover::skip_of(meta, cfg, drafts, today) == Some(
            crate::discover::PageSkip::Future,
        ),
        !(meta.draft && !drafts) && !cfg.build_expired && crate::discover::expired_of(
            meta.expires,
            today,
        ) && !crate::discover::future_of(meta.date, today) ==> crate::discover::skip_of(
            meta,
            cfg,
            drafts,
            today,
        ) == Some(crate::discover::PageSkip::Expired),
        cfg.build_future && cfg.build_expired && !(meta.draft && !drafts)
            ==> crate::discover::skip_of(meta, cfg, drafts, today) is None,
{
}


/// Heading anchors never share an id: the id given to a heading is none of
/// those taken before it.
pub proof fn law_heading_ids_are_distinct(base: Seq<char>, used: Seq<Seq<char>>)
    ensures
        !used.contains(crate::preprocess::unique_id(base, used)),
{
    crate::preprocess::lemma_unique_id(base, used);
}


/// In a live-reload run the revision only grows, by one for each change
/// that starts a rebuild (at least `REBUILD_GAP_MS` after the last one)
/// whose build succeeds; changes let pass and failed builds leave it as it
/// is. This holds while the count stays within `u64`.
pub proof fn law_revision_counts_successful_rebuilds(
    last_ms: Option<u64>,
    revision: u64,
    events: Seq<(u64, bool)>,
)
    requires
        revision + crate::watch::successful_rebuilds(last_ms, revision, events) <= u64::MAX,
    ensures
        crate::watch::live_run(last_ms, revision, events).1 == revision
            + crate::watch::successful_rebuilds(last_ms, revision, events),
    decreases events.len(),
{
    if events.len() > 0 {
        law_revision_counts_successful_rebuilds(last_ms, revision, events.drop_last());
    }
}

/// One change of a live-reload run: it rebuilds exactly when it comes at
/// least `REBUILD_GAP_MS` after the last rebuild (or is the first), and the
/// revision then grows by one if the build succeeds; otherwise the revision
/// and the time of the last rebuild stay.
pub proof fn law_revision_step(last_ms: Option<u64>, revision: u64, now_ms: u64, ok: bool)
    requires
        last_ms matches Some(l) ==> l <= now_ms,
        revision < u64::MAX,
    ensures
        ({
            let (next, rebuild) = crate::watch::change_outcome(last_ms, now_ms);
            &&& rebuild == (last_ms matches Some(l) ==> now_ms - l >= crate::watch::REBUILD_GAP_MS)
            &&& rebuild ==> next == Some(now_ms)
            &&& !rebuild ==> next == last_ms
            &&& crate::watch::revision_after(revision, rebuild && ok) == if rebuild && ok {
                revision + 1
            } else {
                revision as int
            }
        }),
{
}


/// A Typst string literal denotes the text it was made from: reading back
/// the escapes between its quotes gives the input.
pub proof fn law_typst_strings_read_back(s: Seq<char>)
    ensures
        typst_string_of(s).len() >= 2,
        typst_string_of(s)[0] == '"',
        typst_string_of(s).last() == '"',
        crate::util::typst_unescape(typst_string_of(s).subrange(1, typst_string_of(s).len() - 1))
            == s,
{
    let e = typst_escape(s);
    assert(typst_string_of(s).subrange(1, typst_string_of(s).len() - 1) =~= e);
    crate::util::lemma_typst_unescape_escape(s);
}


proof fn lemma_plain_split(s: Seq<char>)
    requires
        forall|i: int| 0 <= i < s.len() ==> #[trigger] s[i] != '"' && s[i] != '\'' && s[i] != '\\',
    ensures
        crate::script::split_fold(s) == (
            crate::text::words_fold(s).0,
            crate::text::words_fold(s).1,
            None::<char>,
            false,
        ),
    decreases s.len(),
{
    if s.len() > 0 {
        let d = s.drop_last();
        assert forall|i: int| 0 <= i < d.len() implies #[trigger] d[i] != '"' && d[i] != '\''
            && d[i] != '\\' by {
            assert(d[i] == s[i]);
        }
        lemma_plain_split(d);
        assert(s.last() == s[s.len() - 1]);
    }
}

/// A command with no quotes and no backslashes splits exactly as white
/// space splits it: its words are `str::split_whitespace`'s, and it is
/// refused as empty only when there are none.
pub proof fn law_plain_commands_split_on_white_space(s: Seq<char>)
    requires
        forall|i: int| 0 <= i < s.len() ==> #[trigger] s[i] != '"' && s[i] != '\'' && s[i] != '\\',
    ensures
        crate::text::ws_words(s).len() > 0 ==> script_words(s) == Ok::<
            Seq<Seq<char>>,
            crate::script::ScriptError,
        >(crate::text::ws_words(s)),
        crate::text::ws_words(s).len() == 0 ==> script_words(s) == Err::<
            Seq<Seq<char>>,
            crate::script::ScriptError,
        >(crate::script::ScriptError::EmptyCommand),
{
    lemma_plain_split(s);
}


/// The relative path between two canonical paths leads from the first to
/// the second: joined to the start, its `..` resolved as steps up, it gives
/// the target. (A canonical path holds no `..`.)
pub proof fn law_relative_path_leads_to_the_target(
    from: Seq<Seq<char>>,
    to: Seq<Seq<char>>,
    n: int,
)
    requires
        crate::paths::is_common_prefix_len(from, to, n),
        forall|i: int| 0 <= i < to.len() ==> #[trigger] to[i] != crate::paths::parent_comp(),
    ensures
        crate::paths::resolve_lexically(from, crate::paths::relative_components(from, to, n)) == to,
{
    crate::paths::lemma_relative_components_reach(from, to, n);
}


/// Whether `c` can stand in a slug: a small ASCII letter or a digit, a
/// non-ASCII alphanumeric character, or `-`.
pub open spec fn slug_char(c: char) -> bool {
    (crate::text::is_ascii_alnum(c) && !crate::text::is_ascii_upper(c)) || ((c as u32) >= 128
        && crate::unicode::alphanumeric(c)) || c == '-'
}

/// Whether `u` is made of slug characters with no two `-` in a row.
pub open spec fn slug_body(u: Seq<char>) -> bool {
    &&& forall|i: int| 0 <= i < u.len() ==> slug_char(#[trigger] u[i])
    &&& forall|i: int| 0 <= i < u.len() - 1 ==> !(#[trigger] u[i] == '-' && u[i + 1] == '-')
}

/// The slug builder writes slug characters, never two `-` in a row, and
/// remembers whether it last wrote a `-`.
proof fn lemma_slug_fold_shape(s: Seq<char>)
    ensures
        slug_body(crate::util::slug_fold(s).0),
        crate::util::slug_fold(s).1 == (crate::util::slug_fold(s).0.len() > 0
            && crate::util::slug_fold(s).0.last() == '-'),
    decreases s.len(),
{
    if s.len() > 0 {
        lemma_slug_fold_shape(s.drop_last());
        let (u, d) = crate::util::slug_fold(s.drop_last());
        let c = s.last();
        let (v, e) = crate::util::slug_fold(s);
        if crate::text::is_ascii_alnum(c) {
            let l = crate::text::ascii_lower(c);
            if crate::text::is_ascii_upper(c) {
                assert((((c as u32) + 32) as char) as u32 == (c as u32) + 32);
            }
            assert(slug_char(l) && l != '-');
            assert(v == u.push(l));
        } else if (c as u32) >= 128 && crate::unicode::alphanumeric(c) {
            assert(v == u.push(c));
            assert(c != '-');
        } else if !d {
            assert(v == u.push('-'));
        }
        assert forall|i: int| 0 <= i < v.len() implies slug_char(#[trigger] v[i]) by {
            if i < u.len() {
                assert(v[i] == u[i]);
            }
        }
        assert forall|i: int| 0 <= i < v.len() - 1 implies !(#[trigger] v[i] == '-' && v[i + 1]
            == '-') by {
            if i + 1 < u.len() {
                assert(v[i] == u[i] && v[i + 1] == u[i + 1]);
            } else if v.len() > u.len() {
                assert(v[i] == u.last());
            }
        }
    }
}

/// Slug text that does not start with `-` passes through the slug builder
/// unchanged.
proof fn lemma_slug_fold_fixed(t: Seq<char>)
    requires
        slug_body(t),
        t.len() > 0 ==> t[0] != '-',
    ensures
        crate::util::slug_fold(t) == (t, t.len() > 0 && t.last() == '-'),
    decreases t.len(),
{
    if t.len() > 0 {
        let d = t.drop_last();
        assert forall|i: int| 0 <= i < d.len() implies slug_char(#[trigger] d[i]) by {
            assert(d[i] == t[i]);
        }
        assert forall|i: int| 0 <= i < d.len() - 1 implies !(#[trigger] d[i] == '-' && d[i + 1]
            == '-') by {
            assert(d[i] == t[i] && d[i + 1] == t[i + 1]);
        }
        if d.len() > 0 {
            assert(d[0] == t[0]);
        }
        lemma_slug_fold_fixed(d);
        let c = t.last();
        assert(slug_char(t[t.len() - 1]));
        if c == '-' {
            assert(t.len() > 1);
            assert(!(t[t.len() - 2] == '-' && t[t.len() - 1] == '-'));
            assert(d.last() == t[t.len() - 2]);
        }
        assert(d.push(c) =~= t);
    }
}

/// Slugifying a slug gives it back.
pub proof fn law_slugs_are_fixed_points(s: Seq<char>)
    ensures
        slug_of(slug_of(s)) == slug_of(s),
{
    let u = crate::util::slug_fold(s).0;
    lemma_slug_fold_shape(s);
    lemma_strip_char_inner(u, '-');
    let r = strip_char(u, '-');
    let k = u.len() - strip_start_char(u, '-').len();
    let t = slug_of(s);
    if r.len() == 0 {
        assert(t == seq!['s', 'e', 'c', 't', 'i', 'o', 'n']);
    } else {
        assert(t == r);
        assert forall|i: int| 0 <= i < t.len() implies slug_char(#[trigger] t[i]) by {
            assert(t[i] == u[k + i]);
        }
        assert forall|i: int| 0 <= i < t.len() - 1 implies !(#[trigger] t[i] == '-' && t[i + 1]
            == '-') by {
            assert(t[i] == u[k + i] && t[i + 1] == u[k + i + 1]);
        }
    }
    assert(slug_body(t));
    assert(t.len() > 0 && t[0] != '-' && t.last() != '-');
    lemma_slug_fold_fixed(t);
    assert(strip_start_char(t, '-') == t);
    assert(strip_end_char(t, '-') == t);
}


/// The summaries a listing sorted by `sort_by` holds, in its order (what
/// `sort_page_summaries` leaves).
pub open spec fn sorted_summaries(items: Seq<crate::model::PageSummary>, sort_by: Seq<char>) -> Seq<
    crate::model::PageSummary,
> {
    crate::listing::stable_sorted(
        items,
        crate::listing::summary_sort_key(),
        crate::listing::sort_order_of(sort_by),
    )
}

/// The weight a listing orders a summary by: its own, 0 when it has none.
pub open spec fn listed_weight(p: crate::model::PageSummary) -> int {
    match p.weight {
        Some(w) => w as int,
        None => 0,
    }
}

/// How a sorted listing orders two pages, the first ahead of the second,
/// given their weights (0 for a page without one), titles, URLs, dates
/// and update dates, for each `sort_by`: by weight, lighter first
/// (`weight`, `weight_asc`) or heavier first (`weight_desc`), equal
/// weights by ascending URL; by title, ascending or descending, equal
/// titles by ascending URL; by URL, ascending or descending; by date,
/// oldest first (`date_asc`), equal dates by weight and then by URL; by
/// update date, newest (`updated`, `updated_desc`) or oldest
/// (`updated_asc`) first, equal update dates by date the same way and
/// then by URL; and, for any other setting, newest first, equal dates by
/// weight and then by URL. A page without a date (or update date) counts
/// as older than one with it.
pub open spec fn fields_in_listing_order(
    wa: int,
    wb: int,
    ta: Seq<char>,
    tb: Seq<char>,
    ua: Seq<char>,
    ub: Seq<char>,
    da: Option<Seq<char>>,
    db: Option<Seq<char>>,
    pa: Option<Seq<char>>,
    pb: Option<Seq<char>>,
    sort_by: Seq<char>,
) -> bool {
    let url_ok = !crate::feed::text_lt(ub, ua);
    if sort_by == "weight"@ || sort_by == "weight_asc"@ {
        wa <= wb && (wa == wb ==> url_ok)
    } else if sort_by == "weight_desc"@ {
        wb <= wa && (wa == wb ==> url_ok)
    } else if sort_by == "title"@ || sort_by == "title_asc"@ {
        !crate::feed::text_lt(tb, ta) && (ta == tb ==> url_ok)
    } else if sort_by == "title_desc"@ {
        !crate::feed::text_lt(ta, tb) && (ta == tb ==> url_ok)
    } else if sort_by == "url"@ || sort_by == "url_asc"@ {
        url_ok
    } else if sort_by == "url_desc"@ {
        !crate::feed::text_lt(ua, ub)
    } else if sort_by == "date_asc"@ {
        !crate::feed::opt_text_lt(db, da) && (da == db ==> wa <= wb && (wa == wb ==> url_ok))
    } else if sort_by == "updated"@ || sort_by == "updated_desc"@ {
        !crate::feed::opt_text_lt(pa, pb) && (pa == pb ==> !crate::feed::opt_text_lt(da, db) && (da
            == db ==> url_ok))
    } else if sort_by == "updated_asc"@ {
        !crate::feed::opt_text_lt(pb, pa) && (pa == pb ==> !crate::feed::opt_text_lt(db, da) && (da
            == db ==> url_ok))
    } else {
        !crate::feed::opt_text_lt(da, db) && (da == db ==> wa <= wb && (wa == wb ==> url_ok))
    }
}

/// How a sorted listing orders two of its summaries, `a` ahead of `b`.
pub open spec fn summaries_in_listing_order(
    a: crate::model::PageSummary,
    b: crate::model::PageSummary,
    sort_by: Seq<char>,
) -> bool {
    fields_in_listing_order(
        listed_weight(a),
        listed_weight(b),
        a.title@,
        b.title@,
        a.url@,
        b.url@,
        crate::model::opt_text(a.date),
        crate::model::opt_text(b.date),
        crate::model::opt_text(a.updated),
        crate::model::opt_text(b.updated),
        sort_by,
    )
}

/// The weight a section orders a page by: its own, 0 when it has none.
pub open spec fn page_weight(p: crate::model::Page) -> int {
    match p.meta.weight {
        Some(w) => w as int,
        None => 0,
    }
}

/// How a section listing orders two of its pages, `a` ahead of `b`.
pub open spec fn pages_in_listing_order(a: crate::model::Page, b: crate::model::Page, sort_by: Seq<char>) -> bool {
    fields_in_listing_order(
        page_weight(a),
        page_weight(b),
        a.title@,
        b.title@,
        a.url@,
        b.url@,
        crate::model::opt_text(a.meta.date),
        crate::model::opt_text(b.meta.date),
        crate::model::opt_text(a.meta.updated),
        crate::model::opt_text(b.meta.updated),
        sort_by,
    )
}

/// Which order a setting names, as far as `fields_in_listing_order`
/// tells the orders apart.
proof fn lemma_sort_setting(sort_by: Seq<char>)
    ensures
        (sort_by == "weight"@ || sort_by == "weight_asc"@) ==> crate::listing::sort_order_of(sort_by)
            == crate::listing::SortOrder::WeightAsc,
        sort_by == "weight_desc"@ ==> crate::listing::sort_order_of(sort_by)
            == crate::listing::SortOrder::WeightDesc,
        (sort_by == "title"@ || sort_by == "title_asc"@) ==> crate::listing::sort_order_of(sort_by)
            == crate::listing::SortOrder::TitleAsc,
        sort_by == "title_desc"@ ==> crate::listing::sort_order_of(sort_by)
            == crate::listing::SortOrder::TitleDesc,
        (sort_by == "url"@ || sort_by == "url_asc"@) ==> crate::listing::sort_order_of(sort_by)
            == crate::listing::SortOrder::UrlAsc,
        sort_by == "url_desc"@ ==> crate::listing::sort_order_of(sort_by)
            == crate::listing::SortOrder::UrlDesc,
        sort_by == "date_asc"@ ==> crate::listing::sort_order_of(sort_by)
            == crate::listing::SortOrder::DateAsc,
        (sort_by == "updated"@ || sort_by == "updated_desc"@) ==> crate::listing::sort_order_of(sort_by)
            == crate::listing::SortOrder::UpdatedDesc,
        sort_by == "updated_asc"@ ==> crate::listing::sort_order_of(sort_by)
            == crate::listing::SortOrder::UpdatedAsc,
        !(sort_by == "weight"@ || sort_by == "weight_asc"@ || sort_by == "weight_desc"@ || sort_by
            == "title"@ || sort_by == "title_asc"@ || sort_by == "title_desc"@ || sort_by == "url"@
            || sort_by == "url_asc"@ || sort_by == "url_desc"@ || sort_by == "date_asc"@ || sort_by
            == "updated"@ || sort_by == "updated_desc"@ || sort_by == "updated_asc"@)
            ==> crate::listing::sort_order_of(sort_by) == crate::listing::SortOrder::DateDesc,
{
    reveal_strlit("weight");
    reveal_strlit("weight_asc");
    reveal_strlit("weight_desc");
    reveal_strlit("date_asc");
    reveal_strlit("updated");
    reveal_strlit("updated_desc");
    reveal_strlit("updated_asc");
    reveal_strlit("title");
    reveal_strlit("title_asc");
    reveal_strlit("title_desc");
    reveal_strlit("url");
    reveal_strlit("url_asc");
    reveal_strlit("url_desc");
    assert("weight"@.len() == 6 && "weight"@[0] == 'w' && "weight"@[1] == 'e');
    assert("weight_asc"@.len() == 10 && "weight_asc"@[0] == 'w' && "weight_asc"@[1] == 'e');
    assert("weight_desc"@.len() == 11 && "weight_desc"@[0] == 'w' && "weight_desc"@[1] == 'e');
    assert("date_asc"@.len() == 8 && "date_asc"@[0] == 'd' && "date_asc"@[1] == 'a');
    assert("updated"@.len() == 7 && "updated"@[0] == 'u' && "updated"@[1] == 'p');
    assert("updated_desc"@.len() == 12 && "updated_desc"@[0] == 'u' && "updated_desc"@[1] == 'p');
    assert("updated_asc"@.len() == 11 && "updated_asc"@[0] == 'u' && "updated_asc"@[1] == 'p');
    assert("title"@.len() == 5 && "title"@[0] == 't' && "title"@[1] == 'i');
    assert("title_asc"@.len() == 9 && "title_asc"@[0] == 't' && "title_asc"@[1] == 'i');
    assert("title_desc"@.len() == 10 && "title_desc"@[0] == 't' && "title_desc"@[1] == 'i');
    assert("url"@.len() == 3 && "url"@[0] == 'u' && "url"@[1] == 'r');
    assert("url_asc"@.len() == 7 && "url_asc"@[0] == 'u' && "url_asc"@[1] == 'r');
    assert("url_desc"@.len() == 8 && "url_desc"@[0] == 'u' && "url_desc"@[1] == 'r');
    if sort_by.len() > 1 {
        let (n, c0, c1) = (sort_by.len(), sort_by[0], sort_by[1]);
        assert(n == sort_by.len() && c0 == sort_by[0] && c1 == sort_by[1]);
    }
}

/// A listing sorted by `sort_by` holds the summaries it was given, and
/// each summary stands ahead of a later one as `summaries_in_listing_order`
/// says: by weight, lighter first and equal weights by ascending URL; and
/// so on for the other settings.
pub proof fn law_listings_follow_their_sort_setting(
    items: Seq<crate::model::PageSummary>,
    sort_by: Seq<char>,
)
    ensures
        sorted_summaries(items, sort_by).to_multiset() == items.to_multiset(),
        forall|i: int, j: int|
            0 <= i < j < items.len() ==> summaries_in_listing_order(
                #[trigger] sorted_summaries(items, sort_by)[i],
                #[trigger] sorted_summaries(items, sort_by)[j],
                sort_by,
            ),
{
    lemma_sort_setting(sort_by);
    let key = crate::listing::summary_sort_key();
    let o = crate::listing::sort_order_of(sort_by);
    crate::listing::lemma_stable_sorted(items, key, o);
    let t = sorted_summaries(items, sort_by);
    assert forall|i: int, j: int| 0 <= i < j < items.len() implies summaries_in_listing_order(
        #[trigger] t[i],
        #[trigger] t[j],
        sort_by,
    ) by {
        assert(!crate::listing::key_before(key(t[j]), key(t[i]), o));
        assert(key(t[j]) == crate::listing::summary_key(t[j]));
        assert(key(t[i]) == crate::listing::summary_key(t[i]));
    }
}


/// The `sort_by` a section's metadata gives, or none.
pub open spec fn section_sort_setting(
    meta: Seq<(String, crate::model::FrontMatter)>,
    s: Seq<char>,
) -> Seq<char> {
    let m = crate::config::keyed_map(crate::config::keyed(meta));
    if m.contains_key(s) && m[s].sort_by is Some {
        m[s].sort_by->0@
    } else {
        Seq::<char>::empty()
    }
}

/// A section lists its pages, those that belong to it, as the `sort_by`
/// of its metadata says (see `fields_in_listing_order`); without one,
/// newest first. So under `weight`, pages of equal weight come in
/// ascending URL order.
pub proof fn law_sections_list_pages_by_their_setting(
    pages: Seq<crate::model::Page>,
    meta: Seq<(String, crate::model::FrontMatter)>,
    s: Seq<char>,
)
    ensures
        forall|i: int, j: int|
            0 <= i < j < crate::listing::section_listing(pages, meta, s).len() ==> pages_in_listing_order(
                pages[#[trigger] crate::listing::section_listing(pages, meta, s)[i]],
                pages[#[trigger] crate::listing::section_listing(pages, meta, s)[j]],
                section_sort_setting(meta, s),
            ),
{
    let w = section_sort_setting(meta, s);
    lemma_sort_setting(w);
    reveal_strlit("weight");
    reveal_strlit("weight_asc");
    reveal_strlit("weight_desc");
    reveal_strlit("date_asc");
    reveal_strlit("updated");
    reveal_strlit("updated_desc");
    reveal_strlit("updated_asc");
    reveal_strlit("title");
    reveal_strlit("title_asc");
    reveal_strlit("title_desc");
    reveal_strlit("url");
    reveal_strlit("url_asc");
    reveal_strlit("url_desc");
    let o = crate::listing::section_sort(meta, s);
    let m = crate::config::keyed_map(crate::config::keyed(meta));
    if !(m.contains_key(s) && m[s].sort_by is Some) {
        assert(w.len() == 0);
    }
    assert(o == crate::listing::sort_order_of(w));
    let key = crate::listing::position_key(pages);
    let pos = crate::listing::section_positions(pages, s);
    crate::listing::lemma_stable_sorted(pos, key, o);
    let l = crate::listing::section_listing(pages, meta, s);
    assert forall|i: int, j: int| 0 <= i < j < l.len() implies pages_in_listing_order(
        pages[#[trigger] l[i]],
        pages[#[trigger] l[j]],
        w,
    ) by {
        assert(!crate::listing::key_before(key(l[j]), key(l[i]), o));
        assert(key(l[j]) == crate::listing::page_key(pages[l[j]]));
        assert(key(l[i]) == crate::listing::page_key(pages[l[i]]));
    }
}


/// The English (RFC 822) abbreviations of the months, January first.
pub open spec fn english_month_abbreviations() -> Seq<Seq<char>> {
    seq![
        seq!['J', 'a', 'n'],
        seq!['F', 'e', 'b'],
        seq!['M', 'a', 'r'],
        seq!['A', 'p', 'r'],
        seq!['M', 'a', 'y'],
        seq!['J', 'u', 'n'],
        seq!['J', 'u', 'l'],
        seq!['A', 'u', 'g'],
        seq!['S', 'e', 'p'],
        seq!['O', 'c', 't'],
        seq!['N', 'o', 'v'],
        seq!['D', 'e', 'c'],
    ]
}

/// An RSS date names the month of a `YYYY-MM-DD` date by the MM-th of
/// Jan, Feb, Mar, Apr, May, Jun, Jul, Aug, Sep, Oct, Nov, Dec: the text is
/// the day, a space, that abbreviation, a space, the year and
/// ` 00:00:00 +0000`.
pub proof fn law_rss_dates_name_the_month(date: Seq<char>)
    ensures
        forall|m: nat|
            1 <= m <= 12 ==> #[trigger] crate::feed::month_abbrev(m) == english_month_abbreviations()[m - 1],
        ({
            let parts = crate::text::split_char(date, '-');
            parts.len() == 3 ==> (crate::feed::month_number(parts[1]) matches Some(m) ==> (1 <= m <= 12 ==> {
                let d = parts[2];
                let n = d.len() as int;
                let r = crate::feed::rss_date_of(date);
                &&& r.take(n) == d
                &&& r[n] == ' '
                &&& r.subrange(n + 1, n + 4) == english_month_abbreviations()[m - 1]
                &&& r[n + 4] == ' '
                &&& r.subrange(n + 5, n + 5 + parts[0].len()) == parts[0]
            }))
        }),
{
    reveal_strlit("Jan");
    reveal_strlit("Feb");
    reveal_strlit("Mar");
    reveal_strlit("Apr");
    reveal_strlit("May");
    reveal_strlit("Jun");
    reveal_strlit("Jul");
    reveal_strlit("Aug");
    reveal_strlit("Sep");
    reveal_strlit("Oct");
    reveal_strlit("Nov");
    reveal_strlit("Dec");
    assert forall|m: nat| 1 <= m <= 12 implies #[trigger] crate::feed::month_abbrev(m)
        == english_month_abbreviations()[m - 1] by {
        assert(english_month_abbreviations()[m - 1].len() == 3);
    }
    let parts = crate::text::split_char(date, '-');
    if parts.len() == 3 {
        if let Some(m) = crate::feed::month_number(parts[1]) {
            if 1 <= m <= 12 {
                let d = parts[2];
                let n = d.len() as int;
                let r = crate::feed::rss_date_of(date);
                let a = crate::feed::month_abbrev(m);
                assert(a == english_month_abbreviations()[m - 1]);
                assert(a.len() == 3);
                assert(r == d + seq![' '] + a + seq![' '] + parts[0] + " 00:00:00 +0000"@);
                assert(r.take(n) =~= d);
                assert(r.subrange(n + 1, n + 4) =~= a);
                assert(r.subrange(n + 5, n + 5 + parts[0].len()) =~= parts[0]);
            }
        }
    }
}


/// The width of the pieces a CJK run of `len` characters is cut into
/// under n-gram width `n`: `n`, or the whole run when it is shorter.
pub open spec fn cjk_piece_width(len: nat, n: nat) -> nat {
    if len < n {
        len
    } else {
        n
    }
}

/// Every non-empty CJK run gives tokens: each window of the n-gram width,
/// from the first character on, or the whole run when it is shorter than
/// the width. So a run never gives no token.
pub proof fn law_cjk_runs_always_give_tokens(run: Seq<char>, n: nat)
    requires
        run.len() > 0,
        n >= 1,
    ensures
        crate::search::ngrams(run, n).len() >= 1,
        crate::search::ngrams(run, n).len() == run.len() - cjk_piece_width(run.len(), n) + 1,
        forall|k: int|
            0 <= k < crate::search::ngrams(run, n).len() ==> #[trigger] crate::search::ngrams(run, n)[k]
                == run.subrange(k, k + cjk_piece_width(run.len(), n)),
{
    if run.len() < n {
        assert(run.subrange(0, run.len() as int) =~= run);
    }
}

/// The tokenizer state after text made only of CJK characters, with CJK
/// tokens on: no token yet, no word, and the whole text as the open run.
proof fn lemma_cjk_text_fold(text: Seq<char>, latin_on: bool, n: nat)
    requires
        forall|i: int| 0 <= i < text.len() ==> crate::search::is_cjk_char(#[trigger] text[i]),
    ensures
        crate::search::token_fold(text, latin_on, true, n) == (
            Seq::<Seq<char>>::empty(),
            Seq::<char>::empty(),
            text,
        ),
    decreases text.len(),
{
    if text.len() > 0 {
        let d = text.drop_last();
        lemma_cjk_text_fold(d, latin_on, n);
        assert(crate::text::strip_char(Seq::<char>::empty(), '_').len() == 0);
        assert(d.push(text.last()) =~= text);
    }
}

/// Deduplication keeps the first token when it is not empty.
proof fn lemma_dedupe_keeps_first(tokens: Seq<Seq<char>>, limit: nat)
    requires
        tokens.len() > 0,
        tokens[0].len() > 0,
    ensures
        crate::search::dedupe(tokens, limit).len() > 0,
        crate::search::dedupe(tokens, limit)[0] == tokens[0],
    decreases tokens.len(),
{
    if tokens.len() > 1 {
        lemma_dedupe_keeps_first(tokens.drop_last(), limit);
    } else {
        assert(crate::search::dedupe(tokens.drop_last(), limit).len() == 0);
    }
}

/// Text made only of CJK characters, searched in the default `auto` mode,
/// gives at least one token: its first n-gram (the whole text when it is
/// shorter than the width).
pub proof fn law_cjk_text_is_searchable(text: Seq<char>, ngram: usize, max_tokens: usize)
    requires
        text.len() > 0,
        forall|i: int| 0 <= i < text.len() ==> crate::search::is_cjk_char(#[trigger] text[i]),
    ensures
        crate::search::search_tokens_of(text, "auto"@, ngram, max_tokens).len() > 0,
        crate::search::search_tokens_of(text, "auto"@, ngram, max_tokens)[0] == text.take(
            cjk_piece_width(text.len(), crate::search::ngram_width(ngram)) as int,
        ),
{
    let n = crate::search::ngram_width(ngram);
    let latin_on = "auto"@ != "ngram-only"@;
    lemma_cjk_text_fold(text, latin_on, n);
    law_cjk_runs_always_give_tokens(text, n);
    let g = crate::search::ngrams(text, n);
    assert(crate::text::strip_char(Seq::<char>::empty(), '_').len() == 0);
    assert(crate::search::flush_latin(Seq::<Seq<char>>::empty(), Seq::<char>::empty()) + g =~= g);
    assert(g[0] =~= text.take(cjk_piece_width(text.len(), n) as int));
    lemma_dedupe_keeps_first(g, max_tokens as nat);
}


/// Whether `part` stands somewhere in `text`.
pub open spec fn contains_text(text: Seq<char>, part: Seq<char>) -> bool {
    exists|k: int| 0 <= k && k + part.len() <= text.len() && #[trigger] text.subrange(k, k + part.len()) == part
}

/// The `youtube` shortcode, given an `id`, embeds the video from
/// `https://www.youtube-nocookie.com/embed/` and the id, and binds the
/// title to the `title` argument as a Typst string; only a shortcode
/// without one is titled `YouTube video`.
pub proof fn law_youtube_keeps_its_title(m: Map<Seq<char>, Seq<char>>)
    requires
        m.contains_key("id"@),
    ensures
        crate::shortcode::render_named("youtube"@, m) is Some,
        contains_text(
            crate::shortcode::render_named("youtube"@, m)->0,
            "let src = "@ + typst_string_of("https://www.youtube-nocookie.com/embed/"@ + m["id"@]) + ";"@,
        ),
        contains_text(
            crate::shortcode::render_named("youtube"@, m)->0,
            "let title = "@ + typst_string_of(
                if m.contains_key("title"@) {
                    m["title"@]
                } else {
                    "YouTube video"@
                },
            ) + ";"@,
        ),
{
    reveal_strlit("youtube");
    reveal_strlit("note");
    reveal_strlit("figure");
    reveal_strlit("#context { let src = ");
    reveal_strlit("; let title = ");
    reveal_strlit("let src = ");
    reveal_strlit("let title = ");
    reveal_strlit(";");
    reveal_strlit("https://www.youtube-nocookie.com/embed/");
    reveal_strlit("YouTube video");
    reveal_strlit("; if target() == \"html\" { html.elem(\"div\", attrs: (class: \"embed embed-youtube\"))[#html.elem(\"iframe\", attrs: (src: src, title: title, loading: \"lazy\", allowfullscreen: \"\"))[]] } else { link(src)[#title] } }");
    assert("youtube"@.len() == 7 && "note"@.len() == 4 && "figure"@.len() == 6);
    assert("youtube"@ != "note"@ && "youtube"@ != "figure"@);
    let r = crate::shortcode::render_named("youtube"@, m)->0;
    let head = crate::shortcode::YOUTUBE_HEAD@;
    let src = typst_string_of(crate::shortcode::YOUTUBE_EMBED@ + m["id"@]);
    let mid = crate::shortcode::YOUTUBE_TITLE@;
    let t = typst_string_of(
        crate::shortcode::value_or(m, "title"@, crate::shortcode::YOUTUBE_DEFAULT_TITLE@),
    );
    let tail = crate::shortcode::YOUTUBE_TAIL@;
    assert(r == head + src + mid + t + tail);
    assert(crate::shortcode::YOUTUBE_EMBED@ == "https://www.youtube-nocookie.com/embed/"@);
    assert(crate::shortcode::YOUTUBE_DEFAULT_TITLE@ == "YouTube video"@);
    let a = "let src = "@ + src + ";"@;
    let k1: int = head.len() - 10;
    assert(r.subrange(k1, k1 + a.len()) =~= a);
    let b = "let title = "@ + t + ";"@;
    let k2: int = (head.len() + src.len() + 2) as int;
    assert(r.subrange(k2, k2 + b.len()) =~= b);
}


/// The content types the server gives by extension: `html`, `css`, `js`,
/// `json` and `xml` as UTF-8 text, `svg`, `png`, `jpg` and `jpeg`, `gif`
/// and `webp` as images, `pdf` as a PDF document, and anything else as an
/// opaque byte stream.
pub proof fn law_content_types_by_extension(ext: Seq<char>)
    ensures
        crate::serve::mime_for_extension("html"@) == "text/html; charset=utf-8"@,
        crate::serve::mime_for_extension("css"@) == "text/css; charset=utf-8"@,
        crate::serve::mime_for_extension("js"@) == "text/javascript; charset=utf-8"@,
        crate::serve::mime_for_extension("json"@) == "application/json; charset=utf-8"@,
        crate::serve::mime_for_extension("xml"@) == "application/xml; charset=utf-8"@,
        crate::serve::mime_for_extension("svg"@) == "image/svg+xml"@,
        crate::serve::mime_for_extension("png"@) == "image/png"@,
        crate::serve::mime_for_extension("jpg"@) == "image/jpeg"@,
        crate::serve::mime_for_extension("jpeg"@) == "image/jpeg"@,
        crate::serve::mime_for_extension("gif"@) == "image/gif"@,
        crate::serve::mime_for_extension("webp"@) == "image/webp"@,
        crate::serve::mime_for_extension("pdf"@) == "application/pdf"@,
        (ext != "html"@ && ext != "css"@ && ext != "js"@ && ext != "json"@ && ext != "xml"@ && ext != "svg"@ && ext != "png"@ && ext != "jpg"@ && ext != "jpeg"@ && ext != "gif"@ && ext != "webp"@ && ext != "pdf"@) ==> crate::serve::mime_for_extension(ext) == "application/octet-stream"@,
{
    reveal_strlit("html");
    reveal_strlit("css");
    reveal_strlit("js");
    reveal_strlit("json");
    reveal_strlit("xml");
    reveal_strlit("svg");
    reveal_strlit("png");
    reveal_strlit("jpg");
    reveal_strlit("jpeg");
    reveal_strlit("gif");
    reveal_strlit("webp");
    reveal_strlit("pdf");
    assert("html"@.len() == 4 && "html"@[0] == 'h' && "html"@[1] == 't');
    assert("css"@.len() == 3 && "css"@[0] == 'c' && "css"@[1] == 's');
    assert("js"@.len() == 2 && "js"@[0] == 'j' && "js"@[1] == 's');
    assert("json"@.len() == 4 && "json"@[0] == 'j' && "json"@[1] == 's');
    assert("xml"@.len() == 3 && "xml"@[0] == 'x' && "xml"@[1] == 'm');
    assert("svg"@.len() == 3 && "svg"@[0] == 's' && "svg"@[1] == 'v');
    assert("png"@.len() == 3 && "png"@[0] == 'p' && "png"@[1] == 'n');
    assert("jpg"@.len() == 3 && "jpg"@[0] == 'j' && "jpg"@[1] == 'p');
    assert("jpeg"@.len() == 4 && "jpeg"@[0] == 'j' && "jpeg"@[1] == 'p');
    assert("gif"@.len() == 3 && "gif"@[0] == 'g' && "gif"@[1] == 'i');
    assert("webp"@.len() == 4 && "webp"@[0] == 'w' && "webp"@[1] == 'e');
    assert("pdf"@.len() == 3 && "pdf"@[0] == 'p' && "pdf"@[1] == 'd');
}

/// A name that ends in `.xml` after at least one other character has the
/// extension `xml`.
proof fn lemma_xml_extension(name: Seq<char>)
    requires
        name.len() >= 5,
        name.skip(name.len() - 4) == ".xml"@,
    ensures
        crate::paths::extension_of(name) == Some("xml"@),
{
    reveal_strlit(".xml");
    reveal_strlit("xml");
    let n = name.len() as int;
    assert(name[n - 4] == '.' && name[n - 3] == 'x' && name[n - 2] == 'm' && name[n - 1] == 'l') by {
        assert(name.skip(n - 4)[0] == name[n - 4]);
        assert(name.skip(n - 4)[1] == name[n - 3]);
        assert(name.skip(n - 4)[2] == name[n - 2]);
        assert(name.skip(n - 4)[3] == name[n - 1]);
    }
    crate::paths::lemma_rfind_char(name, '.');
    match crate::paths::rfind_char(name, '.') {
        Some(k) => {
            if k < n - 4 {
                assert(name[n - 4] != '.');
            }
            assert(k == n - 4);
            assert(name.skip(k + 1) =~= "xml"@);
        },
        None => {
            assert(name[n - 4] != '.');
        },
    }
}

/// A served file gets the content type of its extension, unless it is
/// an XML file (feeds and sitemaps are served by file name); so a `.jpg`
/// or `.jpeg` file is served as `image/jpeg`.
pub proof fn law_files_are_served_by_extension(path: Seq<char>)
    ensures
        crate::paths::file_name_of(path) matches Some(n) ==> (crate::paths::extension_of(n) matches Some(
            e,
        ) ==> (e != "xml"@ ==> crate::serve::mime_of(path) == crate::serve::mime_for_extension(e))),
        crate::paths::file_name_of(path) matches Some(n) ==> (crate::paths::extension_of(n) matches Some(
            e,
        ) ==> ((e == "jpg"@ || e == "jpeg"@) ==> crate::serve::mime_of(path) == "image/jpeg"@)),
{
    reveal_strlit("xml");
    reveal_strlit("jpg");
    reveal_strlit("jpeg");
    reveal_strlit("feed.xml");
    reveal_strlit("rss.xml");
    reveal_strlit("atom.xml");
    reveal_strlit("sitemap.xml");
    reveal_strlit(".xml");
    assert("jpg"@[0] == 'j' && "jpeg"@[0] == 'j' && "xml"@[0] == 'x');
    assert("jpg"@ != "xml"@ && "jpeg"@ != "xml"@);
    if let Some(n) = crate::paths::file_name_of(path) {
        if let Some(e) = crate::paths::extension_of(n) {
            if e != "xml"@ {
                if n == "feed.xml"@ {
                    assert(n.skip(4) =~= ".xml"@);
                    lemma_xml_extension(n);
                } else if n == "rss.xml"@ {
                    assert(n.skip(3) =~= ".xml"@);
                    lemma_xml_extension(n);
                } else if n == "atom.xml"@ {
                    assert(n.skip(4) =~= ".xml"@);
                    lemma_xml_extension(n);
                } else if n == "sitemap.xml"@ {
                    assert(n.skip(7) =~= ".xml"@);
                    lemma_xml_extension(n);
                }
                law_content_types_by_extension(e);
            }
        }
    }
}


/// The `note` shortcode binds its text, the `text` argument or else the
/// first positional one, as a Typst string; without either it renders
/// nothing. A name other than `note`, `figure` and `youtube` renders
/// nothing.
pub proof fn law_notes_keep_their_text(name: Seq<char>, m: Map<Seq<char>, Seq<char>>)
    ensures
        (m.contains_key("text"@) || m.contains_key("0"@)) ==> crate::shortcode::render_named("note"@, m) is Some
            && contains_text(
            crate::shortcode::render_named("note"@, m)->0,
            "let text = "@ + typst_string_of(
                if m.contains_key("text"@) {
                    m["text"@]
                } else {
                    m["0"@]
                },
            ) + ";"@,
        ),
        !(m.contains_key("text"@) || m.contains_key("0"@)) ==> crate::shortcode::render_named("note"@, m) is None,
        (name != "note"@ && name != "figure"@ && name != "youtube"@) ==> crate::shortcode::render_named(name, m) is None,
{
    reveal_strlit("note");
    reveal_strlit("#context { let text = ");
    reveal_strlit("let text = ");
    reveal_strlit(";");
    reveal_strlit("; if target() == \"html\" { html.elem(\"aside\", attrs: (class: \"note\"))[#text] } else { block(inset: 8pt, stroke: luma(180))[#text] } }");
    if m.contains_key("text"@) || m.contains_key("0"@) {
        let r = crate::shortcode::render_named("note"@, m)->0;
        let head = crate::shortcode::NOTE_HEAD@;
        let t = typst_string_of(
            if m.contains_key("text"@) {
                m["text"@]
            } else {
                m["0"@]
            },
        );
        assert(r == head + t + crate::shortcode::NOTE_TAIL@);
        let a = "let text = "@ + t + ";"@;
        let k: int = head.len() - 11;
        assert(r.subrange(k, k + a.len()) =~= a);
    }
}

/// The `figure` shortcode, given a `src`, binds the source, the
/// alternative text (`alt`, else empty) and the caption (`some(..)` of the
/// `caption` argument, else `none`) as Typst values; without a `src` it
/// renders nothing.
pub proof fn law_figures_keep_their_arguments(m: Map<Seq<char>, Seq<char>>)
    ensures
        !m.contains_key("src"@) ==> crate::shortcode::render_named("figure"@, m) is None,
        m.contains_key("src"@) ==> {
            &&& crate::shortcode::render_named("figure"@, m) is Some
            &&& contains_text(
                crate::shortcode::render_named("figure"@, m)->0,
                "let src = "@ + typst_string_of(m["src"@]) + ";"@,
            )
            &&& contains_text(
                crate::shortcode::render_named("figure"@, m)->0,
                "let alt = "@ + typst_string_of(
                    if m.contains_key("alt"@) {
                        m["alt"@]
                    } else {
                        Seq::<char>::empty()
                    },
                ) + ";"@,
            )
            &&& contains_text(
                crate::shortcode::render_named("figure"@, m)->0,
                "let caption = "@ + (if m.contains_key("caption"@) {
                    "some("@ + typst_string_of(m["caption"@]) + ")"@
                } else {
                    "none"@
                }) + ";"@,
            )
        },
{
    reveal_strlit("note");
    reveal_strlit("figure");
    reveal_strlit("#context { let src = ");
    reveal_strlit("; let alt = ");
    reveal_strlit("; let caption = ");
    reveal_strlit("let src = ");
    reveal_strlit("let alt = ");
    reveal_strlit("let caption = ");
    reveal_strlit(";");
    reveal_strlit("; if target() == \"html\" { html.elem(\"figure\", attrs: (class: \"figure\"))[#html.elem(\"img\", attrs: (src: src, alt: alt))[] #if caption != none { html.elem(\"figcaption\")[#caption] }] } else { if caption != none { figure(image(src), caption: caption) } else { image(src) } } }");
    assert("note"@.len() == 4 && "figure"@.len() == 6);
    assert("figure"@ != "note"@);
    if m.contains_key("src"@) {
        let r = crate::shortcode::render_named("figure"@, m)->0;
        let head = crate::shortcode::FIGURE_HEAD@;
        let src = typst_string_of(m["src"@]);
        let alt = typst_string_of(crate::shortcode::value_or(m, "alt"@, Seq::<char>::empty()));
        let cap = if m.contains_key("caption"@) {
            "some("@ + typst_string_of(m["caption"@]) + ")"@
        } else {
            "none"@
        };
        let mid1 = crate::shortcode::FIGURE_ALT@;
        let mid2 = crate::shortcode::FIGURE_CAPTION@;
        assert(r == head + src + mid1 + alt + mid2 + cap + crate::shortcode::FIGURE_TAIL@);
        let a = "let src = "@ + src + ";"@;
        let k1: int = head.len() - 10;
        assert(r.subrange(k1, k1 + a.len()) =~= a);
        let b = "let alt = "@ + alt + ";"@;
        let k2: int = (head.len() + src.len() + 2) as int;
        assert(r.subrange(k2, k2 + b.len()) =~= b);
        let c = "let caption = "@ + cap + ";"@;
        let k3: int = (head.len() + src.len() + mid1.len() + alt.len() + 2) as int;
        assert(r.subrange(k3, k3 + c.len()) =~= c);
    }
}


/// While fewer tokens than the limit (at least one) are kept, every
/// non-empty token found is kept: de-duplication drops only repeats and
/// empty tokens.
pub proof fn law_search_tokens_keep_every_token(tokens: Seq<Seq<char>>, limit: nat)
    ensures
        crate::search::dedupe(tokens, limit).len() < (if limit < 1 {
            1
        } else {
            limit
        }) ==> forall|i: int|
            0 <= i < tokens.len() && (#[trigger] tokens[i]).len() > 0 ==> crate::search::dedupe(
                tokens,
                limit,
            ).contains(tokens[i]),
    decreases tokens.len(),
{
    if tokens.len() > 0 {
        let d = tokens.drop_last();
        law_search_tokens_keep_every_token(d, limit);
        let prev = crate::search::dedupe(d, limit);
        let r = crate::search::dedupe(tokens, limit);
        let t = tokens.last();
        let cap: nat = if limit < 1 {
            1
        } else {
            limit
        };
        if r.len() < cap {
            assert forall|i: int| 0 <= i < tokens.len() && (#[trigger] tokens[i]).len() > 0 implies r.contains(
                tokens[i],
            ) by {
                if i < d.len() {
                    assert(d[i] == tokens[i]);
                    let k = choose|k: int| 0 <= k < prev.len() && prev[k] == d[i];
                    assert(r[k] == prev[k]);
                } else {
                    if !prev.contains(t) {
                        assert(r[r.len() - 1] == t);
                    } else {
                        let k = choose|k: int| 0 <= k < prev.len() && prev[k] == t;
                        assert(r[k] == prev[k]);
                    }
                }
            }
        }
    }
}


/// The tokenizer state after text of ASCII letters and digits, with
/// words on: no token yet, the whole text lowercased as the open word, and
/// no CJK run.
proof fn lemma_ascii_word_fold(text: Seq<char>, cjk_on: bool, n: nat)
    requires
        forall|i: int| 0 <= i < text.len() ==> crate::text::is_ascii_alnum(#[trigger] text[i]),
    ensures
        crate::search::token_fold(text, true, cjk_on, n) == (
            Seq::<Seq<char>>::empty(),
            text.map_values(|c: char| crate::text::ascii_lower(c)),
            Seq::<char>::empty(),
        ),
    decreases text.len(),
{
    if text.len() > 0 {
        let d = text.drop_last();
        lemma_ascii_word_fold(d, cjk_on, n);
        let c = text.last();
        assert(crate::text::is_ascii_alnum(c));
        assert((c as u32) < 128);
        assert(!crate::search::is_cjk_char(c));
        assert(crate::search::word_char(c));
        assert(crate::search::ngrams(Seq::<char>::empty(), n) =~= Seq::<Seq<char>>::empty());
        assert(d.map_values(|c: char| crate::text::ascii_lower(c)) + crate::search::lower_of(c)
            =~= text.map_values(|c: char| crate::text::ascii_lower(c)));
        assert(Seq::<Seq<char>>::empty() + Seq::<Seq<char>>::empty() =~= Seq::<Seq<char>>::empty());
    }
}

/// A word of two or more ASCII letters and digits, searched in the
/// default `auto` mode, gives exactly one token: the word in lowercase.
pub proof fn law_ascii_words_are_lowercased(text: Seq<char>, ngram: usize, max_tokens: usize)
    requires
        text.len() >= 2,
        forall|i: int| 0 <= i < text.len() ==> crate::text::is_ascii_alnum(#[trigger] text[i]),
    ensures
        crate::search::search_tokens_of(text, "auto"@, ngram, max_tokens).len() == 1,
        forall|i: int|
            0 <= i < text.len() ==> #[trigger] crate::search::search_tokens_of(text, "auto"@, ngram, max_tokens)[0][i]
                == if 'A' <= text[i] <= 'Z' {
                ((text[i] as u32) + 32) as char
            } else {
                text[i]
            },
        crate::search::search_tokens_of(text, "auto"@, ngram, max_tokens)[0].len() == text.len(),
{
    reveal_strlit("auto");
    reveal_strlit("ngram-only");
    assert("auto"@.len() == 4 && "ngram-only"@.len() == 10);
    assert("auto"@ != "ngram-only"@);
    let n = crate::search::ngram_width(ngram);
    lemma_ascii_word_fold(text, true, n);
    let w = text.map_values(|c: char| crate::text::ascii_lower(c));
    assert(w[0] != '_' && w[w.len() - 1] != '_');
    assert(crate::text::strip_start_char(w, '_') == w);
    assert(crate::text::strip_end_char(w, '_') == w);
    let toks = crate::search::flush_latin(Seq::<Seq<char>>::empty(), w);
    assert(toks =~= seq![w]);
    assert(crate::search::ngrams(Seq::<char>::empty(), n) =~= Seq::<Seq<char>>::empty());
    assert(toks + crate::search::ngrams(Seq::<char>::empty(), n) =~= seq![w]);
    let r = crate::search::dedupe(seq![w], max_tokens as nat);
    assert(seq![w].drop_last() =~= Seq::<Seq<char>>::empty());
    assert(w.len() == text.len());
    assert(crate::search::dedupe(Seq::<Seq<char>>::empty(), max_tokens as nat).len() == 0);
    assert(seq![w].last() == w);
    assert(!crate::search::dedupe(seq![w].drop_last(), max_tokens as nat).contains(w));
    assert(r =~= seq![w]);
}


/// Feeds and sitemaps are served by file name: `feed.xml` and `rss.xml`
/// as RSS, `atom.xml` as Atom and `sitemap.xml` as XML, wherever they
/// stand; a file without a name or extension as an opaque byte stream.
pub proof fn law_feeds_are_served_by_name(path: Seq<char>)
    ensures
        (crate::paths::file_name_of(path) == Some("feed.xml"@) || crate::paths::file_name_of(path) == Some(
            "rss.xml"@,
        )) ==> crate::serve::mime_of(path) == "application/rss+xml; charset=utf-8"@,
        crate::paths::file_name_of(path) == Some("atom.xml"@) ==> crate::serve::mime_of(path)
            == "application/atom+xml; charset=utf-8"@,
        crate::paths::file_name_of(path) == Some("sitemap.xml"@) ==> crate::serve::mime_of(path)
            == "application/xml; charset=utf-8"@,
        (crate::paths::file_name_of(path) matches Some(n) ==> crate::paths::extension_of(n) is None)
            ==> crate::serve::mime_of(path) == "application/octet-stream"@,
{
    reveal_strlit("feed.xml");
    reveal_strlit("rss.xml");
    reveal_strlit("atom.xml");
    reveal_strlit("sitemap.xml");
    reveal_strlit(".xml");
    assert("feed.xml"@.len() == 8 && "rss.xml"@.len() == 7 && "atom.xml"@.len() == 8
        && "sitemap.xml"@.len() == 11);
    assert("feed.xml"@[0] == 'f' && "atom.xml"@[0] == 'a');
    if crate::paths::file_name_of(path) matches Some(n) ==> crate::paths::extension_of(n) is None {
        if let Some(n) = crate::paths::file_name_of(path) {
            if n == "feed.xml"@ {
                assert(n.skip(4) =~= ".xml"@);
                lemma_xml_extension(n);
            } else if n == "rss.xml"@ {
                assert(n.skip(3) =~= ".xml"@);
                lemma_xml_extension(n);
            } else if n == "atom.xml"@ {
                assert(n.skip(4) =~= ".xml"@);
                lemma_xml_extension(n);
            } else if n == "sitemap.xml"@ {
                assert(n.skip(7) =~= ".xml"@);
                lemma_xml_extension(n);
            }
        }
    }
}

} // verus!
