//! Feeds: which pages a feed lists and in what order, feed dates and
//! absolute links.
use vstd::prelude::*;

use crate::config::{Config, FeedConfig};
use crate::model::{opt_text, same_summary, PageSummary};

use crate::text::{
    all_digits, chars_of, digits_to_u64, digits_value, is_ascii_digit, split_char, split_char_vec,
    strip_end_char, views,
};

verus! {

broadcast use vstd::string::group_string_axioms;

/// The Atom timestamp of a date: a `YYYY-MM-DD` date (three `-`
/// separated parts) at midnight UTC; any other text unchanged.
pub open spec fn atom_date_of(date: Seq<char>) -> Seq<char> {
    if split_char(date, '-').len() == 3 {
        date + "T00:00:00Z"@
    } else {
        date
    }
}

/// The Atom timestamp of a date.
pub fn atom_date(date: &str) -> (r: String)
    ensures
        r@ == atom_date_of(date@),
{
    let cs = chars_of(date);
    let parts = split_char_vec(&cs, '-');
    let mut s = String::from_str(date);
    if parts.len() == 3 {
        s.append("T00:00:00Z");
    }
    s
}

/// The month number a date part states, as `usize::from_str` reads it: an
/// optional `+` and at least one ASCII digit.
pub open spec fn month_number(s: Seq<char>) -> Option<nat> {
    let body = if s.len() > 0 && s[0] == '+' {
        s.drop_first()
    } else {
        s
    };
    if body.len() > 0 && all_digits(body) {
        Some(digits_value(body))
    } else {
        None
    }
}

/// The English abbreviation of a month, or nothing outside 1..=12.
pub open spec fn month_abbrev(m: nat) -> Seq<char> {
    if m == 1 {
        "Jan"@
    } else if m == 2 {
        "Feb"@
    } else if m == 3 {
        "Mar"@
    } else if m == 4 {
        "Apr"@
    } else if m == 5 {
        "May"@
    } else if m == 6 {
        "Jun"@
    } else if m == 7 {
        "Jul"@
    } else if m == 8 {
        "Aug"@
    } else if m == 9 {
        "Sep"@
    } else if m == 10 {
        "Oct"@
    } else if m == 11 {
        "Nov"@
    } else if m == 12 {
        "Dec"@
    } else {
        Seq::<char>::empty()
    }
}

/// The RSS date of `YYYY-MM-DD`: `DD Mon YYYY 00:00:00 +0000`; any other
/// text, or a month outside 1..=12, unchanged.
pub open spec fn rss_date_of(date: Seq<char>) -> Seq<char> {
    let parts = split_char(date, '-');
    if parts.len() == 3 {
        match month_number(parts[1]) {
            Some(m) => if 1 <= m && m <= 12 {
                parts[2] + seq![' '] + month_abbrev(m) + seq![' '] + parts[0]
                    + " 00:00:00 +0000"@
            } else {
                date
            },
            None => date,
        }
    } else {
        date
    }
}

fn month_abbrev_str(m: u64) -> (r: &'static str)
    requires
        1 <= m <= 12,
    ensures
        r@ == month_abbrev(m as nat),
{
    if m == 1 {
        "Jan"
    } else if m == 2 {
        "Feb"
    } else if m == 3 {
        "Mar"
    } else if m == 4 {
        "Apr"
    } else if m == 5 {
        "May"
    } else if m == 6 {
        "Jun"
    } else if m == 7 {
        "Jul"
    } else if m == 8 {
        "Aug"
    } else if m == 9 {
        "Sep"
    } else if m == 10 {
        "Oct"
    } else if m == 11 {
        "Nov"
    } else {
        "Dec"
    }
}

/// Reads the month number of a date part.
fn parse_month(s: &Vec<char>) -> (r: Option<u64>)
    ensures
        match month_number(s@) {
            Some(m) => if m <= u64::MAX {
                r == Some(m as u64)
            } else {
                r is None
            },
            None => r is None,
        },
{
    let body = if s.len() > 0 && s[0] == '+' {
        let b = crate::text::subvec(s, 1, s.len());
        assert(b@ =~= s@.drop_first());
        b
    } else {
        crate::text::copy_chars(s)
    };
    if body.len() == 0 {
        return None;
    }
    let mut i: usize = 0;
    while i < body.len()
        invariant
            i <= body.len(),
            body.len() > 0,
            body@ == (if s@.len() > 0 && s@[0] == '+' {
                s@.drop_first()
            } else {
                s@
            }),
            forall|k: int| 0 <= k < i ==> is_ascii_digit(#[trigger] body@[k]),
        decreases body.len() - i,
    {
        if !('0' <= body[i] && body[i] <= '9') {
            assert(!all_digits(body@));
            return None;
        }
        i += 1;
    }
    digits_to_u64(&body)
}

/// The RSS date of a `YYYY-MM-DD` date.
pub fn rss_date(date: &str) -> (r: String)
    ensures
        r@ == rss_date_of(date@),
{
    let cs = chars_of(date);
    let parts = split_char_vec(&cs, '-');
    if parts.len() == 3 {
        assert(views(parts@)[1] == parts@[1]@);
        assert(views(parts@)[0] == parts@[0]@);
        assert(views(parts@)[2] == parts@[2]@);
        match parse_month(&parts[1]) {
            Some(m) => {
                if 1 <= m && m <= 12 {
                    let mut s = crate::text::string_of(&parts[2]);
                    crate::text::push_char(&mut s, ' ');
                    s.append(month_abbrev_str(m));
                    crate::text::push_char(&mut s, ' ');
                    crate::text::push_chars(&mut s, &parts[0]);
                    s.append(" 00:00:00 +0000");
                    return s;
                }
            },
            None => {},
        }
    }
    String::from_str(date)
}

/// A site path made absolute with the base URL, when one is set; the
/// base URL's trailing slashes are dropped first.
pub open spec fn absolute_url_of(base_url: Seq<char>, path: Seq<char>) -> Seq<char> {
    if base_url.len() == 0 {
        path
    } else {
        strip_end_char(base_url, '/') + path
    }
}

/// A site path made absolute with the base URL.
pub fn absolute_url(base_url: &str, path: &str) -> (r: String)
    ensures
        r@ == absolute_url_of(base_url@, path@),
{
    let b = chars_of(base_url);
    if b.len() == 0 {
        return String::from_str(path);
    }
    let mut j: usize = b.len();
    assert(b@.take(j as int) =~= b@);
    while j > 0 && b[j - 1] == '/'
        invariant
            j <= b.len(),
            strip_end_char(b@, '/') == strip_end_char(b@.take(j as int), '/'),
        decreases j,
    {
        assert(b@.take(j as int).drop_last() =~= b@.take(j - 1));
        j -= 1;
    }
    let base = crate::text::subvec(&b, 0, j);
    assert(base@ =~= b@.take(j as int));
    assert(strip_end_char(base@, '/') == base@);
    let mut s = crate::text::string_of(&base);
    s.append(path);
    s
}

// ---------------------------------------------------------------------------
// Feed items
// ---------------------------------------------------------------------------

/// The section names of a list that are not blank, in order.
pub open spec fn named_sections(list: Seq<Seq<char>>) -> Seq<Seq<char>>
    decreases list.len(),
{
    if list.len() == 0 {
        Seq::<Seq<char>>::empty()
    } else if crate::text::trim(list.last()).len() > 0 {
        named_sections(list.drop_last()).push(list.last())
    } else {
        named_sections(list.drop_last())
    }
}

/// The sections a feed covers: its own `section` and `sections` that are
/// not blank; when there are none, the site's `feed_sections` that are
/// not blank. No section means every section.
pub open spec fn covered_sections(
    own: Option<Seq<char>>,
    list: Seq<Seq<char>>,
    site: Seq<Seq<char>>,
) -> Seq<Seq<char>> {
    let first = match own {
        Some(s) => named_sections(seq![s]),
        None => Seq::<Seq<char>>::empty(),
    };
    let mine = first + named_sections(list);
    if mine.len() == 0 {
        named_sections(site)
    } else {
        mine
    }
}

/// The positions of the pages a feed lists, in page order.
pub open spec fn selected_pages(pages: Seq<PageSummary>, sections: Seq<Seq<char>>) -> Seq<int>
    decreases pages.len(),
{
    if pages.len() == 0 {
        Seq::<int>::empty()
    } else {
        let prev = selected_pages(pages.drop_last(), sections);
        if sections.len() == 0 || sections.contains(pages.last().section@) {
            prev.push(pages.len() - 1)
        } else {
            prev
        }
    }
}

/// Lexicographic order of texts (by code point, which is the byte order
/// of their UTF-8 encodings).
pub open spec fn text_lt(a: Seq<char>, b: Seq<char>) -> bool
    decreases a.len(),
{
    if a.len() == 0 {
        b.len() > 0
    } else if b.len() == 0 {
        false
    } else if a[0] != b[0] {
        (a[0] as u32) < (b[0] as u32)
    } else {
        text_lt(a.drop_first(), b.drop_first())
    }
}

/// Order of optional texts: none first.
pub open spec fn opt_text_lt(a: Option<Seq<char>>, b: Option<Seq<char>>) -> bool {
    match (a, b) {
        (None, Some(_)) => true,
        (Some(x), Some(y)) => text_lt(x, y),
        _ => false,
    }
}

/// Whether page `a` comes strictly before page `b` in a feed: newer date
/// first (pages without a date last), then by URL.
pub open spec fn precedes(a: PageSummary, b: PageSummary) -> bool {
    opt_text_lt(opt_text(b.date), opt_text(a.date)) || (opt_text(a.date) == opt_text(b.date)
        && text_lt(a.url@, b.url@))
}

/// `order` with position `x` inserted after every page that does not come
/// after it.
pub open spec fn insert_in_order(order: Seq<int>, x: int, pages: Seq<PageSummary>) -> Seq<int>
    decreases order.len(),
{
    if order.len() == 0 {
        seq![x]
    } else if precedes(pages[x], pages[order.last()]) {
        insert_in_order(order.drop_last(), x, pages).push(order.last())
    } else {
        order.push(x)
    }
}

/// The positions sorted into feed order, keeping the page order of pages
/// that tie (a stable sort).
pub open spec fn sort_in_order(idx: Seq<int>, pages: Seq<PageSummary>) -> Seq<int>
    decreases idx.len(),
{
    if idx.len() == 0 {
        Seq::<int>::empty()
    } else {
        insert_in_order(sort_in_order(idx.drop_last(), pages), idx.last(), pages)
    }
}

/// The positions of the pages a feed lists, in feed order, at most
/// `limit` of them when `limit` is not 0.
pub open spec fn feed_order(cfg: Config, pages: Seq<PageSummary>, spec: FeedConfig) -> Seq<int> {
    let sections = covered_sections(
        opt_text(spec.section),
        crate::script::string_views(spec.sections@),
        crate::script::string_views(cfg.feed_sections@),
    );
    let sorted = sort_in_order(selected_pages(pages, sections), pages);
    if spec.limit > 0 && sorted.len() > spec.limit {
        sorted.take(spec.limit as int)
    } else {
        sorted
    }
}

pub(crate) fn text_less(a: &Vec<char>, b: &Vec<char>) -> (r: bool)
    ensures
        r == text_lt(a@, b@),
{
    let mut i: usize = 0;
    assert(a@.skip(0) =~= a@);
    assert(b@.skip(0) =~= b@);
    while i < a.len() && i < b.len() && a[i] == b[i]
        invariant
            i <= a.len(),
            i <= b.len(),
            text_lt(a@, b@) == text_lt(a@.skip(i as int), b@.skip(i as int)),
        decreases a.len() - i,
    {
        assert(a@.skip(i as int).drop_first() =~= a@.skip(i + 1));
        assert(b@.skip(i as int).drop_first() =~= b@.skip(i + 1));
        i += 1;
    }
    if i == a.len() {
        i < b.len()
    } else if i == b.len() {
        false
    } else {
        assert(a@.skip(i as int)[0] == a@[i as int]);
        assert(b@.skip(i as int)[0] == b@[i as int]);
        (a[i] as u32) < (b[i] as u32)
    }
}

pub(crate) fn opt_chars(o: &Option<String>) -> (r: Option<Vec<char>>)
    ensures
        match r {
            Some(v) => opt_text(*o) == Some(v@),
            None => opt_text(*o) is None,
        },
{
    match o {
        Some(s) => Some(chars_of(s.as_str())),
        None => None,
    }
}

pub(crate) fn opt_less(a: &Option<Vec<char>>, b: &Option<Vec<char>>) -> (r: bool)
    ensures
        r == opt_text_lt(
            match a {
                Some(v) => Some(v@),
                None => None,
            },
            match b {
                Some(v) => Some(v@),
                None => None,
            },
        ),
{
    match (a, b) {
        (None, Some(_)) => true,
        (Some(x), Some(y)) => text_less(x, y),
        _ => false,
    }
}

pub(crate) fn opt_same(a: &Option<Vec<char>>, b: &Option<Vec<char>>) -> (r: bool)
    ensures
        r == ((match a {
            Some(v) => Some(v@),
            None => None,
        }) == (match b {
            Some(v) => Some(v@),
            None => None,
        })),
{
    match (a, b) {
        (None, None) => true,
        (Some(x), Some(y)) => crate::text::vec_eq(x, y),
        _ => false,
    }
}

/// Whether page `a` comes strictly before page `b` in a feed.
fn comes_before(a: &PageSummary, b: &PageSummary) -> (r: bool)
    ensures
        r == precedes(*a, *b),
{
    let da = opt_chars(&a.date);
    let db = opt_chars(&b.date);
    if opt_less(&db, &da) {
        return true;
    }
    if !opt_same(&da, &db) {
        return false;
    }
    let ua = chars_of(a.url.as_str());
    let ub = chars_of(b.url.as_str());
    text_less(&ua, &ub)
}

proof fn lemma_insert_at(order: Seq<int>, x: int, pages: Seq<PageSummary>, j: int)
    requires
        0 <= j <= order.len(),
        forall|k: int| j <= k < order.len() ==> precedes(pages[x], #[trigger] pages[order[k]]),
        j == 0 || !precedes(pages[x], pages[order[j - 1]]),
    ensures
        insert_in_order(order, x, pages) == order.insert(j, x),
    decreases order.len(),
{
    if order.len() == j {
        if order.len() > 0 {
            assert(order.last() == order[j - 1]);
        }
        assert(order.insert(j, x) =~= order.push(x));
    } else {
        assert(precedes(pages[x], pages[order[order.len() - 1]]));
        assert(order.last() == order[order.len() - 1]);
        let d = order.drop_last();
        assert forall|k: int| j <= k < d.len() implies precedes(pages[x], #[trigger] pages[d[k]]) by {
            assert(d[k] == order[k]);
        }
        if j > 0 {
            assert(d[j - 1] == order[j - 1]);
        }
        lemma_insert_at(d, x, pages, j);
        assert(d.insert(j, x).push(order.last()) =~= order.insert(j, x));
    }
}

/// The pages a feed lists, in feed order: those of the sections it
/// covers, newest first (then by URL, ties keeping their page order), at
/// most `limit` of them when `limit` is not 0.
pub fn feed_items(cfg: &Config, pages: &Vec<PageSummary>, spec: &FeedConfig) -> (r: Vec<PageSummary>)
    ensures
        r@.len() == feed_order(*cfg, pages@, *spec).len(),
        forall|k: int|
            0 <= k < r@.len() ==> 0 <= #[trigger] feed_order(*cfg, pages@, *spec)[k] < pages@.len()
                && same_summary(r@[k], pages@[feed_order(*cfg, pages@, *spec)[k]]),
{
    // The covered sections.
    let mut sections: Vec<String> = Vec::new();
    match &spec.section {
        Some(s) => {
            let sc = chars_of(s.as_str());
            assert(seq![s@].drop_last() =~= Seq::<Seq<char>>::empty());
            assert(seq![s@].last() == s@);
            assert(named_sections(Seq::<Seq<char>>::empty()) == Seq::<Seq<char>>::empty());
            let t = crate::text::trim_vec(&sc);
            if t.len() > 0 {
                let c = s.clone();
                sections.push(c);
                assert(crate::script::string_views(sections@) =~= seq![s@]);
                assert(named_sections(seq![s@]) =~= seq![s@]);
            } else {
                assert(crate::script::string_views(sections@) =~= Seq::<Seq<char>>::empty());
                assert(named_sections(seq![s@]) =~= Seq::<Seq<char>>::empty());
            }
        },
        None => {
            assert(crate::script::string_views(sections@) =~= Seq::<Seq<char>>::empty());
        },
    }
    let ghost first = crate::script::string_views(sections@);
    assert(first == (match opt_text(spec.section) {
        Some(x) => named_sections(seq![x]),
        None => Seq::<Seq<char>>::empty(),
    }));
    collect_named(&mut sections, &spec.sections);
    if sections.len() == 0 {
        collect_named(&mut sections, &cfg.feed_sections);
    }
    let ghost secs = crate::script::string_views(sections@);
    assert(secs == covered_sections(
        opt_text(spec.section),
        crate::script::string_views(spec.sections@),
        crate::script::string_views(cfg.feed_sections@),
    ));
    // The selected pages, in page order.
    let mut sel: Vec<usize> = Vec::new();
    let mut i: usize = 0;
    while i < pages.len()
        invariant
            i <= pages.len(),
            secs == crate::script::string_views(sections@),
            sel@.map_values(|v: usize| v as int) == selected_pages(pages@.take(i as int), secs),
            forall|k: int| 0 <= k < sel@.len() ==> sel@[k] < i,
        decreases pages.len() - i,
    {
        assert(pages@.take(i + 1).drop_last() =~= pages@.take(i as int));
        assert(pages@.take(i + 1).last() == pages@[i as int]);
        let ghost before = sel@.map_values(|v: usize| v as int);
        if sections.len() == 0 || has_section(&sections, &pages[i].section) {
            sel.push(i);
            assert(sel@.map_values(|v: usize| v as int) =~= before.push(i as int));
        }
        i += 1;
    }
    assert(pages@.take(pages.len() as int) =~= pages@);
    let ghost selected = sel@.map_values(|v: usize| v as int);
    // Stable insertion into feed order.
    let mut ord: Vec<usize> = Vec::new();
    let mut m: usize = 0;
    while m < sel.len()
        invariant
            m <= sel.len(),
            selected == sel@.map_values(|v: usize| v as int),
            forall|k: int| 0 <= k < sel@.len() ==> sel@[k] < pages@.len(),
            forall|k: int| 0 <= k < ord@.len() ==> ord@[k] < pages@.len(),
            ord@.map_values(|v: usize| v as int) == sort_in_order(selected.take(m as int), pages@),
        decreases sel.len() - m,
    {
        let x = sel[m];
        let ghost o = ord@.map_values(|v: usize| v as int);
        let mut j: usize = ord.len();
        while j > 0 && comes_before(&pages[x], &pages[ord[j - 1]])
            invariant
                j <= ord.len(),
                x < pages@.len(),
                o == ord@.map_values(|v: usize| v as int),
                forall|k: int| 0 <= k < ord@.len() ==> ord@[k] < pages@.len(),
                forall|k: int| j <= k < o.len() ==> precedes(pages@[x as int], #[trigger] pages@[o[k]]),
            decreases j,
        {
            j -= 1;
        }
        proof {
            if j > 0 {
                assert(o[j - 1] == ord@[j - 1] as int);
            }
            lemma_insert_at(o, x as int, pages@, j as int);
        }
        ord.insert(j, x);
        assert(ord@.map_values(|v: usize| v as int) =~= o.insert(j as int, x as int));
        assert(selected.take(m + 1).drop_last() =~= selected.take(m as int));
        assert(selected.take(m + 1).last() == x as int);
        m += 1;
    }
    assert(selected.take(sel.len() as int) =~= selected);
    let ghost sorted = ord@.map_values(|v: usize| v as int);
    let count = if spec.limit > 0 && ord.len() > spec.limit {
        spec.limit
    } else {
        ord.len()
    };
    let ghost order = feed_order(*cfg, pages@, *spec);
    assert(order =~= sorted.take(count as int));
    let mut out: Vec<PageSummary> = Vec::new();
    let mut k: usize = 0;
    while k < count
        invariant
            k <= count <= ord.len(),
            order == sorted.take(count as int),
            sorted == ord@.map_values(|v: usize| v as int),
            forall|q: int| 0 <= q < ord@.len() ==> ord@[q] < pages@.len(),
            out@.len() == k,
            forall|q: int|
                0 <= q < k ==> 0 <= #[trigger] order[q] < pages@.len() && same_summary(
                    out@[q],
                    pages@[order[q]],
                ),
        decreases count - k,
    {
        let idx = ord[k];
        out.push(pages[idx].copy());
        assert(order[k as int] == idx as int);
        k += 1;
    }
    out
}

pub(crate) fn has_section(sections: &Vec<String>, section: &String) -> (r: bool)
    ensures
        r == crate::script::string_views(sections@).contains(section@),
{
    let target = chars_of(section.as_str());
    let mut i: usize = 0;
    while i < sections.len()
        invariant
            i <= sections.len(),
            target@ == section@,
            forall|k: int| 0 <= k < i ==> sections@[k]@ != section@,
        decreases sections.len() - i,
    {
        let s = chars_of(sections[i].as_str());
        if crate::text::vec_eq(&s, &target) {
            assert(crate::script::string_views(sections@)[i as int] == section@);
            return true;
        }
        i += 1;
    }
    proof {
        if crate::script::string_views(sections@).contains(section@) {
            let k = choose|k: int|
                0 <= k < sections@.len() && crate::script::string_views(sections@)[k] == section@;
            assert(sections@[k]@ != section@);
        }
    }
    false
}

/// Appends the names of `list` that are not blank.
fn collect_named(out: &mut Vec<String>, list: &Vec<String>)
    ensures
        crate::script::string_views(final(out)@) == crate::script::string_views(old(out)@)
            + named_sections(crate::script::string_views(list@)),
{
    let ghost start = crate::script::string_views(out@);
    let ghost lv = crate::script::string_views(list@);
    let mut i: usize = 0;
    while i < list.len()
        invariant
            i <= list.len(),
            lv == crate::script::string_views(list@),
            crate::script::string_views(out@) == start + named_sections(lv.take(i as int)),
        decreases list.len() - i,
    {
        assert(lv.take(i + 1).drop_last() =~= lv.take(i as int));
        assert(lv.take(i + 1).last() == list@[i as int]@);
        let sc = chars_of(list[i].as_str());
        if crate::text::trim_vec(&sc).len() > 0 {
            let ghost before = crate::script::string_views(out@);
            out.push(list[i].clone());
            assert(crate::script::string_views(out@) =~= before.push(list@[i as int]@));
        }
        i += 1;
    }
    assert(lv.take(list.len() as int) =~= lv);
}

/// The title of a feed: its own, else the site's feed title, else the
/// site title.
pub open spec fn feed_title_of(cfg: Config, spec: FeedConfig) -> Seq<char> {
    match opt_text(spec.title) {
        Some(t) => t,
        None => match opt_text(cfg.feed_title) {
            Some(t) => t,
            None => cfg.title@,
        },
    }
}

/// The title of a feed.
pub fn feed_title(cfg: &Config, spec: &FeedConfig) -> (r: String)
    ensures
        r@ == feed_title_of(*cfg, *spec),
{
    match &spec.title {
        Some(t) => t.clone(),
        None => match &cfg.feed_title {
            Some(t) => t.clone(),
            None => cfg.title.clone(),
        },
    }
}

/// The description of a feed: its own, else the site's feed description,
/// else the text of the site's free-form `description` field, else the
/// site title.
pub open spec fn feed_description_of(cfg: Config, spec: FeedConfig) -> Seq<char> {
    match opt_text(spec.description) {
        Some(t) => t,
        None => match opt_text(cfg.feed_description) {
            Some(t) => t,
            None => {
                let m = crate::config::keyed_map(crate::config::meta_keyed(cfg.extra@));
                if m.contains_key("description"@) && m["description"@] is Text {
                    m["description"@]->Text_0
                } else {
                    cfg.title@
                }
            },
        },
    }
}

/// The description of a feed.
pub fn feed_description(cfg: &Config, spec: &FeedConfig) -> (r: String)
    ensures
        r@ == feed_description_of(*cfg, *spec),
{
    match &spec.description {
        Some(t) => t.clone(),
        None => match &cfg.feed_description {
            Some(t) => t.clone(),
            None => {
                let key = String::from_str("description");
                proof {
                    crate::config::lemma_meta_keyed_map(cfg.extra@);
                }
                match crate::listing::find_keyed(&cfg.extra, &key) {
                    Some(i) => match &cfg.extra[i].1 {
                        crate::config::MetaValue::Text(t) => t.clone(),
                        _ => cfg.title.clone(),
                    },
                    None => cfg.title.clone(),
                }
            },
        },
    }
}

} // verus!
