//! Internal links: `@/path/to/page.typ` references in content resolved to
//! page URLs, with unknown targets reported as broken.
use vstd::prelude::*;

use crate::script::string_views;
use crate::table::{lookup_entry, pair_views, pairs_map, set_entry, unique_names};
use crate::model::Page;
use crate::text::{
    chars_of, copy_chars, ends_with, ends_with_vec, replace_all, replace_vec, find_char, find_char_vec, is_whitespace, is_ws, lemma_find_from_bounds, lines,
    lines_vec, push_char, push_chars, starts_with, string_of, subvec, trim_start, trim_start_vec,
    views,
};

verus! {

broadcast use vstd::string::group_string_axioms;

/// Maps internal link keys such as `@/posts/hello.typ` to page URLs.
pub struct LinkMap {
    entries: Vec<(String, String)>,
}

impl View for LinkMap {
    type V = Map<Seq<char>, Seq<char>>;

    closed spec fn view(&self) -> Map<Seq<char>, Seq<char>> {
        pairs_map(pair_views(self.entries@))
    }
}

impl LinkMap {
    #[verifier::type_invariant]
    closed spec fn wf(self) -> bool {
        unique_names(pair_views(self.entries@))
    }

    /// An empty map.
    pub fn new() -> (r: LinkMap)
        ensures
            r@ == Map::<Seq<char>, Seq<char>>::empty(),
    {
        let r = LinkMap { entries: Vec::new() };
        assert(pair_views(r.entries@) =~= Seq::empty());
        r
    }

    /// Maps `key` to `url`, replacing an earlier URL for the same key.
    pub fn insert(&mut self, key: String, url: String)
        ensures
            final(self)@ == old(self)@.insert(key@, url@),
    {
        proof {
            use_type_invariant(&*self);
        }
        let mut entries: Vec<(String, String)> = Vec::new();
        std::mem::swap(&mut entries, &mut self.entries);
        set_entry(&mut entries, key, url);
        self.entries = entries;
    }

    /// The URL for `key`, if the map has one.
    pub fn get(&self, key: &str) -> (r: Option<String>)
        ensures
            r matches Some(u) ==> self@.contains_key(key@) && u@ == self@[key@],
            r is None ==> !self@.contains_key(key@),
    {
        proof {
            use_type_invariant(self);
        }
        lookup_entry(&self.entries, key)
    }
}

/// The extension of Typst sources.
pub open spec fn typ_ext() -> Seq<char> {
    seq!['.', 't', 'y', 'p']
}

/// `s` without every trailing `.typ` (`trim_end_matches(".typ")`).
pub open spec fn trim_typ_suffixes(s: Seq<char>) -> Seq<char>
    decreases s.len(),
{
    if ends_with(s, typ_ext()) {
        trim_typ_suffixes(s.take(s.len() - 4))
    } else {
        s
    }
}

/// A content path with `\` written as `/`.
pub open spec fn slashed(rel: Seq<char>) -> Seq<char> {
    replace_all(rel, seq!['\\'], seq!['/'])
}

/// The link map of a list of pages: each page is reached by `@/` and its
/// content path, and by `@/` and that path without `.typ`; a later page
/// replaces an earlier one under the same key.
pub open spec fn link_map_of(pages: Seq<Page>) -> Map<Seq<char>, Seq<char>>
    decreases pages.len(),
{
    if pages.len() == 0 {
        Map::empty()
    } else {
        let p = pages.last();
        let rel = slashed(p.rel@);
        link_map_of(pages.drop_last()).insert(seq!['@', '/'] + rel, p.url@).insert(
            seq!['@', '/'] + trim_typ_suffixes(rel),
            p.url@,
        )
    }
}

/// `@/` followed by `v`, as a string.
fn link_key(v: &Vec<char>) -> (r: String)
    ensures
        r@ == seq!['@', '/'] + v@,
{
    let mut k: Vec<char> = Vec::new();
    k.push('@');
    k.push('/');
    let mut i: usize = 0;
    while i < v.len()
        invariant
            i <= v.len(),
            k@ == seq!['@', '/'] + v@.take(i as int),
        decreases v.len() - i,
    {
        k.push(v[i]);
        assert(v@.take(i + 1) =~= v@.take(i as int).push(v@[i as int]));
        i += 1;
    }
    assert(v@.take(v.len() as int) =~= v@);
    string_of(&k)
}

/// The map from internal link keys to page URLs for `pages`.
pub fn build_link_map(pages: &Vec<Page>) -> (r: LinkMap)
    ensures
        r@ == link_map_of(pages@),
{
    let mut map = LinkMap::new();
    let mut bs: Vec<char> = Vec::new();
    bs.push('\\');
    let mut fs: Vec<char> = Vec::new();
    fs.push('/');
    let mut ext: Vec<char> = Vec::new();
    ext.push('.');
    ext.push('t');
    ext.push('y');
    ext.push('p');
    assert(ext@ =~= typ_ext());
    assert(bs@ =~= seq!['\\']);
    assert(fs@ =~= seq!['/']);
    let mut i: usize = 0;
    while i < pages.len()
        invariant
            i <= pages.len(),
            map@ == link_map_of(pages@.take(i as int)),
            ext@ == typ_ext(),
            bs@ == seq!['\\'],
            fs@ == seq!['/'],
        decreases pages.len() - i,
    {
        assert(pages@.take(i + 1).drop_last() =~= pages@.take(i as int));
        assert(pages@.take(i + 1).last() == pages@[i as int]);
        let page = &pages[i];
        let rel = replace_vec(&chars_of(page.rel.as_str()), &bs, &fs);
        let mut no_ext = copy_chars(&rel);
        while ends_with_vec(&no_ext, &ext)
            invariant
                ext@ == typ_ext(),
                trim_typ_suffixes(no_ext@) == trim_typ_suffixes(rel@),
            decreases no_ext.len(),
        {
            no_ext = subvec(&no_ext, 0, no_ext.len() - 4);
        }
        map.insert(link_key(&rel), String::from_str(page.url.as_str()));
        map.insert(link_key(&no_ext), String::from_str(page.url.as_str()));
        i += 1;
    }
    assert(pages@.take(pages.len() as int) =~= pages@);
    map
}

/// Characters that end an internal link key.
pub open spec fn is_link_delim(c: char) -> bool {
    is_ws(c) || c == '"' || c == '\'' || c == ')' || c == ']' || c == '}' || c == '<' || c == '>'
}

fn link_delim(c: char) -> (r: bool)
    ensures
        r == is_link_delim(c),
{
    is_whitespace(c) || c == '"' || c == '\'' || c == ')' || c == ']' || c == '}' || c == '<' || c
        == '>'
}

/// The first position at or after `k` that holds a link delimiter, or the
/// end of `s`.
pub open spec fn link_end(s: Seq<char>, k: int) -> int
    decreases s.len() - k,
{
    if k >= s.len() {
        s.len() as int
    } else if is_link_delim(s[k]) {
        k
    } else {
        link_end(s, k + 1)
    }
}

pub proof fn lemma_link_end(s: Seq<char>, k: int)
    requires
        0 <= k,
    ensures
        k <= s.len() ==> k <= link_end(s, k) <= s.len(),
        k > s.len() ==> link_end(s, k) == s.len(),
    decreases s.len() - k,
{
    if k < s.len() && !is_link_delim(s[k]) {
        lemma_link_end(s, k + 1);
    }
}

/// A link key and its fragment: the text before and after the first `#`.
pub open spec fn split_fragment(raw: Seq<char>) -> (Seq<char>, Option<Seq<char>>) {
    match find_char(raw, '#') {
        Some(k) => (raw.take(k), Some(raw.skip(k + 1))),
        None => (raw, None),
    }
}

/// What an internal link `raw` becomes: the page URL with the fragment
/// kept, or nothing when the key is unknown.
pub open spec fn link_target(raw: Seq<char>, m: Map<Seq<char>, Seq<char>>) -> Option<Seq<char>> {
    let (key, frag) = split_fragment(raw);
    if m.contains_key(key) {
        Some(
            m[key] + match frag {
                Some(f) => seq!['#'] + f,
                None => Seq::<char>::empty(),
            },
        )
    } else {
        None
    }
}

/// The rewritten rest of a line from position `i`, and the broken links
/// found there. Backticks toggle inline raw text, where nothing is
/// rewritten; outside it, `@/` starts a link key that runs to the next
/// delimiter.
pub open spec fn resolve_from(s: Seq<char>, i: int, raw: bool, m: Map<Seq<char>, Seq<char>>) -> (
    Seq<char>,
    Seq<Seq<char>>,
)
    decreases s.len() - i,
{
    if i < 0 || i >= s.len() {
        (Seq::<char>::empty(), Seq::<Seq<char>>::empty())
    } else if s[i] == '`' {
        let (o, b) = resolve_from(s, i + 1, !raw, m);
        (seq!['`'] + o, b)
    } else if !raw && s[i] == '@' && i + 1 < s.len() && s[i + 1] == '/' {
        let j = link_end(s, i + 2);
        proof {
            lemma_link_end(s, i + 2);
        }
        let key = s.subrange(i, j);
        let (o, b) = resolve_from(s, j, raw, m);
        match link_target(key, m) {
            Some(u) => (u + o, b),
            None => (key + o, seq![key] + b),
        }
    } else {
        let (o, b) = resolve_from(s, i + 1, raw, m);
        (seq![s[i]] + o, b)
    }
}

/// Rewrites the internal links of one line; unknown link keys stay as
/// they are and are appended to `broken`.
pub fn resolve_internal_links_line(line: &str, link_map: &LinkMap, broken: &mut Vec<String>) -> (r:
    String)
    ensures
        r@ == resolve_from(line@, 0, false, link_map@).0,
        string_views(final(broken)@) == string_views(old(broken)@) + resolve_from(
            line@,
            0,
            false,
            link_map@,
        ).1,
{
    let cs = chars_of(line);
    let ghost m = link_map@;
    let ghost total = resolve_from(cs@, 0, false, m);
    let ghost b0 = string_views(broken@);
    let mut out = String::new();
    let mut in_raw = false;
    let mut i: usize = 0;
    assert(out@ + total.0 =~= total.0);
    assert(b0 + total.1 =~= b0 + total.1);
    while i < cs.len()
        invariant
            i <= cs.len(),
            cs@ == line@,
            m == link_map@,
            total == resolve_from(cs@, 0, false, m),
            out@ + resolve_from(cs@, i as int, in_raw, m).0 == total.0,
            string_views(broken@) + resolve_from(cs@, i as int, in_raw, m).1 == b0 + total.1,
        decreases cs.len() - i,
    {
        let ghost rest = resolve_from(cs@, i as int, in_raw, m);
        let ghost bv = string_views(broken@);
        let ghost o0 = out@;
        if cs[i] == '`' {
            push_char(&mut out, '`');
            in_raw = !in_raw;
            i += 1;
            assert(out@ + resolve_from(cs@, i as int, in_raw, m).0 =~= o0 + rest.0);
        } else if !in_raw && cs[i] == '@' && i + 1 < cs.len() && cs[i + 1] == '/' {
            let mut j = i + 2;
            proof {
                lemma_link_end(cs@, i + 2);
            }
            while j < cs.len() && !link_delim(cs[j])
                invariant
                    i + 2 <= j <= cs.len(),
                    link_end(cs@, i + 2) == link_end(cs@, j as int),
                decreases cs.len() - j,
            {
                j += 1;
            }
            let key = subvec(&cs, i, j);
            let ghost after = resolve_from(cs@, j as int, in_raw, m);
            let (k, frag) = split_fragment_vec(&key);
            let ks = string_of(&k);
            match link_map.get(ks.as_str()) {
                Some(url) => {
                    out.append(url.as_str());
                    if let Some(f) = frag {
                        push_char(&mut out, '#');
                        push_chars(&mut out, &f);
                    }
                    assert(out@ =~= o0 + link_target(key@, m)->0);
                    assert(out@ + after.0 =~= o0 + rest.0);
                },
                None => {
                    let raw_s = string_of(&key);
                    broken.push(raw_s);
                    push_chars(&mut out, &key);
                    assert(string_views(broken@) =~= bv.push(key@));
                    assert(string_views(broken@) + after.1 =~= bv + rest.1);
                    assert(out@ + after.0 =~= o0 + rest.0);
                },
            }
            i = j;
        } else {
            push_char(&mut out, cs[i]);
            i += 1;
            assert(out@ + resolve_from(cs@, i as int, in_raw, m).0 =~= o0 + rest.0);
        }
    }
    assert(out@ + Seq::<char>::empty() =~= out@);
    assert(string_views(broken@) + Seq::<Seq<char>>::empty() =~= string_views(broken@));
    out
}

/// Splits a link key at its first `#`.
fn split_fragment_vec(raw: &Vec<char>) -> (r: (Vec<char>, Option<Vec<char>>))
    ensures
        split_fragment(raw@) == (r.0@, match r.1 {
            Some(f) => Some(f@),
            None => None,
        }),
{
    match find_char_vec(raw, '#') {
        Some(k) => {
            proof {
                lemma_find_from_bounds(raw@, seq!['#'], 0);
            }
            let a = subvec(raw, 0, k);
            let b = subvec(raw, k + 1, raw.len());
            assert(a@ =~= raw@.take(k as int));
            assert(b@ =~= raw@.skip(k + 1));
            (a, Some(b))
        },
        None => (subvec(raw, 0, raw.len()), None),
    }
}


/// Whether a line opens or closes a raw block: after leading white space
/// it starts with three backticks.
pub open spec fn is_fence_line(l: Seq<char>) -> bool {
    starts_with(trim_start(l), seq!['`', '`', '`'])
}

/// Whether a line opens or closes a raw block.
pub fn fence_line(l: &Vec<char>) -> (r: bool)
    ensures
        r == is_fence_line(l@),
{
    let t = trim_start_vec(l);
    let mut p: Vec<char> = Vec::new();
    p.push('`');
    p.push('`');
    p.push('`');
    assert(p@ =~= seq!['`', '`', '`']);
    crate::text::starts_with_vec(&t, &p)
}

/// The rewritten text of `ls`, each line ended by a newline, the broken
/// links found, and whether a raw block is open after them. Lines inside
/// raw blocks, and the fence lines themselves, are kept as they are.
pub open spec fn resolve_lines(ls: Seq<Seq<char>>, m: Map<Seq<char>, Seq<char>>) -> (
    Seq<char>,
    Seq<Seq<char>>,
    bool,
)
    decreases ls.len(),
{
    if ls.len() == 0 {
        (Seq::<char>::empty(), Seq::<Seq<char>>::empty(), false)
    } else {
        let (o, b, raw) = resolve_lines(ls.drop_last(), m);
        let l = ls.last();
        if is_fence_line(l) {
            (o + l + seq!['\n'], b, !raw)
        } else if raw {
            (o + l + seq!['\n'], b, raw)
        } else {
            let (lo, lb) = resolve_from(l, 0, false, m);
            (o + lo + seq!['\n'], b + lb, raw)
        }
    }
}

/// Rewrites the internal links of a page body, leaving raw blocks alone;
/// unknown link keys are appended to `broken`.
pub fn resolve_internal_links(body: &str, link_map: &LinkMap, broken: &mut Vec<String>) -> (r:
    String)
    ensures
        r@ == resolve_lines(lines(body@), link_map@).0,
        string_views(final(broken)@) == string_views(old(broken)@) + resolve_lines(
            lines(body@),
            link_map@,
        ).1,
{
    let cs = chars_of(body);
    let ls = lines_vec(&cs);
    let ghost lv = views(ls@);
    let ghost m = link_map@;
    let ghost b0 = string_views(broken@);
    let mut out = String::new();
    let mut in_raw = false;
    let mut i: usize = 0;
    assert(b0 =~= b0 + Seq::<Seq<char>>::empty());
    while i < ls.len()
        invariant
            i <= ls.len(),
            lv == views(ls@),
            lv == lines(body@),
            m == link_map@,
            resolve_lines(lv.take(i as int), m) == (out@, string_views(broken@).skip(b0.len() as int), in_raw),
            string_views(broken@).take(b0.len() as int) == b0,
            string_views(broken@).len() >= b0.len(),
        decreases ls.len() - i,
    {
        assert(lv.take(i + 1).drop_last() =~= lv.take(i as int));
        assert(lv.take(i + 1).last() == ls@[i as int]@);
        let line = &ls[i];
        let ghost o0 = out@;
        let ghost bv = string_views(broken@);
        if fence_line(line) {
            in_raw = !in_raw;
            push_chars(&mut out, line);
            push_char(&mut out, '\n');
        } else if in_raw {
            push_chars(&mut out, line);
            push_char(&mut out, '\n');
        } else {
            let ls_str = string_of(line);
            let r = resolve_internal_links_line(ls_str.as_str(), link_map, broken);
            out.append(r.as_str());
            push_char(&mut out, '\n');
            assert(string_views(broken@).skip(b0.len() as int) =~= bv.skip(b0.len() as int)
                + resolve_from(line@, 0, false, m).1);
            assert(string_views(broken@).take(b0.len() as int) =~= b0);
        }
        i += 1;
    }
    assert(lv.take(ls.len() as int) =~= lv);
    assert(string_views(broken@) =~= b0 + string_views(broken@).skip(b0.len() as int));
    out
}

} // verus!
