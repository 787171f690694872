//! The text of the files a build writes besides its pages: the RSS and
//! Atom feeds, the sitemap and `robots.txt`.
use vstd::prelude::*;

use crate::config::{Config, FeedConfig};
use crate::escape::{escape_xml, escaped, Escape};
use crate::feed::{
    absolute_url, absolute_url_of, atom_date, atom_date_of, feed_description, feed_description_of,
    feed_items, feed_order, feed_title, feed_title_of, rss_date, rss_date_of, text_less, text_lt,
};
use crate::generated::{insert_name_vec, insert_names, picked, summaries_match};
use crate::model::{opt_text, same_summary, GeneratedPage, Page, PageSummary};
use crate::script::string_views;
use crate::text::{chars_of, push_chars, trim, trim_vec};
use crate::paths::{join_path, join_path_of};
use crate::url::{
    alias_to_url, directory_url, output_path_for_url, output_path_of, public_file_path,
    public_file_path_of, public_file_url, public_file_url_of, UrlError,
};

verus! {

broadcast use vstd::string::group_string_axioms;

/// Text escaped for XML.
pub open spec fn xml(s: Seq<char>) -> Seq<char> {
    escaped(Escape::Xml, s)
}

// ---------------------------------------------------------------------------
// Dates
// ---------------------------------------------------------------------------

/// The date a page was last changed: its update date, else its date.
pub open spec fn page_date_of(p: PageSummary) -> Option<Seq<char>> {
    match opt_text(p.updated) {
        Some(u) => Some(u),
        None => opt_text(p.date),
    }
}

/// The later of two optional dates (compared as text); a date is later
/// than none.
pub open spec fn newest_of(a: Option<Seq<char>>, b: Option<Seq<char>>) -> Option<Seq<char>> {
    match (a, b) {
        (Some(x), Some(y)) => Some(
            if text_lt(y, x) {
                x
            } else {
                y
            },
        ),
        (Some(x), None) => Some(x),
        (None, Some(y)) => Some(y),
        (None, None) => None,
    }
}

/// The latest change date of the pages, if any has one.
pub open spec fn latest_of(items: Seq<PageSummary>) -> Option<Seq<char>>
    decreases items.len(),
{
    if items.len() == 0 {
        None
    } else {
        newest_of(latest_of(items.drop_last()), page_date_of(items.last()))
    }
}

/// The later of two optional dates.
pub fn newest_date(a: Option<String>, b: Option<String>) -> (r: Option<String>)
    ensures
        opt_text(r) == newest_of(opt_text(a), opt_text(b)),
{
    match (a, b) {
        (Some(x), Some(y)) => {
            let xc = chars_of(x.as_str());
            let yc = chars_of(y.as_str());
            if text_less(&yc, &xc) {
                Some(x)
            } else {
                Some(y)
            }
        },
        (Some(x), None) => Some(x),
        (None, Some(y)) => Some(y),
        (None, None) => None,
    }
}

fn page_date(p: &PageSummary) -> (r: Option<String>)
    ensures
        opt_text(r) == page_date_of(*p),
{
    match &p.updated {
        Some(u) => Some(u.clone()),
        None => match &p.date {
            Some(d) => Some(d.clone()),
            None => None,
        },
    }
}

/// The latest change date of the pages.
pub fn latest_page_date(items: &Vec<PageSummary>) -> (r: Option<String>)
    ensures
        opt_text(r) == latest_of(items@),
{
    let mut best: Option<String> = None;
    let mut i: usize = 0;
    while i < items.len()
        invariant
            i <= items@.len(),
            opt_text(best) == latest_of(items@.take(i as int)),
        decreases items.len() - i,
    {
        assert(items@.take(i + 1).drop_last() =~= items@.take(i as int));
        assert(items@.take(i + 1).last() == items@[i as int]);
        best = newest_date(best, page_date(&items[i]));
        i += 1;
    }
    assert(items@.take(items@.len() as int) =~= items@);
    best
}

/// The latest change date depends only on what the summaries say.
pub proof fn lemma_latest_of_match(a: Seq<PageSummary>, b: Seq<PageSummary>)
    requires
        summaries_match(a, b),
    ensures
        latest_of(a) == latest_of(b),
    decreases a.len(),
{
    if a.len() > 0 {
        assert(same_summary(a[a.len() - 1], b[b.len() - 1]));
        assert(summaries_match(a.drop_last(), b.drop_last())) by {
            assert forall|k: int| 0 <= k < a.drop_last().len() implies same_summary(
                #[trigger] a.drop_last()[k],
                b.drop_last()[k],
            ) by {
                assert(same_summary(a[k], b[k]));
            }
        }
        lemma_latest_of_match(a.drop_last(), b.drop_last());
    }
}

// ---------------------------------------------------------------------------
// robots.txt
// ---------------------------------------------------------------------------

/// The text of `robots.txt`: everything allowed, and the sitemap named
/// when the site writes one and has a base URL.
pub open spec fn robots_of(cfg: Config) -> Seq<char> {
    "User-agent: *\nAllow: /\n"@ + if cfg.sitemap && trim(cfg.base_url@).len() > 0 {
        "\nSitemap: "@ + absolute_url_of(cfg.base_url@, "/sitemap.xml"@) + "\n"@
    } else {
        Seq::<char>::empty()
    }
}

/// The text of `robots.txt`.
pub fn robots_txt(cfg: &Config) -> (r: String)
    ensures
        r@ == robots_of(*cfg),
{
    let mut text = String::new();
    push_chars(&mut text, &chars_of("User-agent: *\nAllow: /\n"));
    let base = chars_of(cfg.base_url.as_str());
    if cfg.sitemap && trim_vec(&base).len() > 0 {
        push_chars(&mut text, &chars_of("\nSitemap: "));
        let url = absolute_url(cfg.base_url.as_str(), "/sitemap.xml");
        push_chars(&mut text, &chars_of(url.as_str()));
        push_chars(&mut text, &chars_of("\n"));
    }
    assert(text@ =~= robots_of(*cfg));
    text
}

// ---------------------------------------------------------------------------
// Feeds
// ---------------------------------------------------------------------------

fn append(s: &mut String, t: &str)
    ensures
        final(s)@ == old(s)@ + t@,
{
    push_chars(s, &chars_of(t));
}

/// What a feed says of a page: its excerpt, else its description.
pub open spec fn summary_text_of(p: PageSummary) -> Option<Seq<char>> {
    match opt_text(p.excerpt) {
        Some(e) => Some(e),
        None => opt_text(p.description),
    }
}

/// The RSS item of a page.
pub open spec fn rss_item_of(base: Seq<char>, p: PageSummary) -> Seq<char> {
    let link = xml(absolute_url_of(base, p.url@));
    "<item><title>"@ + xml(p.title@) + "</title><link>"@ + link
        + "</link><guid isPermaLink=\"true\">"@ + link + "</guid>"@ + (match opt_text(p.date) {
        Some(d) => "<pubDate>"@ + xml(rss_date_of(d)) + "</pubDate>"@,
        None => Seq::<char>::empty(),
    }) + (match summary_text_of(p) {
        Some(d) => "<description>"@ + xml(d) + "</description>"@,
        None => Seq::<char>::empty(),
    }) + "</item>\n"@
}

/// The RSS items of the pages, in order.
pub open spec fn rss_items_of(base: Seq<char>, items: Seq<PageSummary>) -> Seq<char>
    decreases items.len(),
{
    if items.len() == 0 {
        Seq::<char>::empty()
    } else {
        rss_items_of(base, items.drop_last()) + rss_item_of(base, items.last())
    }
}

/// The link of a feed: its own, trimmed, or `/` when that is blank.
pub open spec fn feed_link_of(link: Seq<char>) -> Seq<char> {
    if trim(link).len() == 0 {
        "/"@
    } else {
        trim(link)
    }
}

/// An RSS feed: its channel (title, link, description, its own URL, the
/// latest date of its items), then its items.
pub open spec fn rss_xml_of(
    title: Seq<char>,
    link: Seq<char>,
    description: Seq<char>,
    self_url: Seq<char>,
    base: Seq<char>,
    items: Seq<PageSummary>,
) -> Seq<char> {
    "<?xml version=\"1.0\" encoding=\"utf-8\"?>\n<rss version=\"2.0\"><channel><title>"@ + xml(title)
        + "</title><link>"@ + xml(absolute_url_of(base, link)) + "</link><description>"@ + xml(
        description,
    ) + "</description>\n"@
        + "<atom:link xmlns:atom=\"http://www.w3.org/2005/Atom\" href=\""@ + xml(
        absolute_url_of(base, self_url),
    ) + "\" rel=\"self\" type=\"application/rss+xml\"/>\n"@ + (match latest_of(items) {
        Some(d) => "<lastBuildDate>"@ + xml(rss_date_of(d)) + "</lastBuildDate>\n"@,
        None => Seq::<char>::empty(),
    }) + rss_items_of(base, items) + "</channel></rss>\n"@
}

/// The RSS items depend only on what the summaries say.
pub proof fn lemma_rss_items_match(base: Seq<char>, a: Seq<PageSummary>, b: Seq<PageSummary>)
    requires
        summaries_match(a, b),
    ensures
        rss_items_of(base, a) == rss_items_of(base, b),
    decreases a.len(),
{
    if a.len() > 0 {
        assert(same_summary(a[a.len() - 1], b[b.len() - 1]));
        assert(summaries_match(a.drop_last(), b.drop_last())) by {
            assert forall|k: int| 0 <= k < a.drop_last().len() implies same_summary(
                #[trigger] a.drop_last()[k],
                b.drop_last()[k],
            ) by {
                assert(same_summary(a[k], b[k]));
            }
        }
        lemma_rss_items_match(base, a.drop_last(), b.drop_last());
    }
}

fn rss_item(base: &str, p: &PageSummary) -> (r: String)
    ensures
        r@ == rss_item_of(base@, *p),
{
    let link = escape_xml(absolute_url(base, p.url.as_str()).as_str());
    let mut x = String::new();
    append(&mut x, "<item><title>");
    append(&mut x, escape_xml(p.title.as_str()).as_str());
    append(&mut x, "</title><link>");
    append(&mut x, link.as_str());
    append(&mut x, "</link><guid isPermaLink=\"true\">");
    append(&mut x, link.as_str());
    append(&mut x, "</guid>");
    let ghost head = x@;
    match &p.date {
        Some(d) => {
            append(&mut x, "<pubDate>");
            append(&mut x, escape_xml(rss_date(d.as_str()).as_str()).as_str());
            append(&mut x, "</pubDate>");
        },
        None => {},
    }
    let ghost with_date = x@;
    let desc = match &p.excerpt {
        Some(e) => Some(e),
        None => match &p.description {
            Some(d) => Some(d),
            None => None,
        },
    };
    match desc {
        Some(d) => {
            append(&mut x, "<description>");
            append(&mut x, escape_xml(d.as_str()).as_str());
            append(&mut x, "</description>");
        },
        None => {},
    }
    append(&mut x, "</item>\n");
    assert(x@ =~= rss_item_of(base@, *p));
    x
}

/// The RSS items of the pages.
fn rss_items(base: &str, items: &Vec<PageSummary>) -> (r: String)
    ensures
        r@ == rss_items_of(base@, items@),
{
    let mut x = String::new();
    let mut i: usize = 0;
    while i < items.len()
        invariant
            i <= items@.len(),
            x@ == rss_items_of(base@, items@.take(i as int)),
        decreases items.len() - i,
    {
        assert(items@.take(i + 1).drop_last() =~= items@.take(i as int));
        assert(items@.take(i + 1).last() == items@[i as int]);
        let item = rss_item(base, &items[i]);
        append(&mut x, item.as_str());
        i += 1;
    }
    assert(items@.take(items@.len() as int) =~= items@);
    x
}

/// The link a feed gives for its channel.
fn feed_link(link: &String) -> (r: String)
    ensures
        r@ == feed_link_of(link@),
{
    let t = trim_vec(&chars_of(link.as_str()));
    if t.len() == 0 {
        String::from_str("/")
    } else {
        crate::text::string_of(&t)
    }
}

/// The text of an RSS feed of the site: the pages the feed lists (see
/// `feed_order`), under the feed's title, link and description. A feed
/// whose file path is no safe public path is refused.
pub fn rss_feed(cfg: &Config, pages: &Vec<PageSummary>, spec: &FeedConfig) -> (r: Result<String, UrlError>)
    ensures
        match r {
            Ok(x) => public_file_url_of(spec.path@) matches Ok(u) && x@ == rss_xml_of(
                feed_title_of(*cfg, *spec),
                feed_link_of(spec.link@),
                feed_description_of(*cfg, *spec),
                u,
                cfg.base_url@,
                picked(pages@, feed_order(*cfg, pages@, *spec)),
            ),
            Err(e) => public_file_url_of(spec.path@) == Err::<Seq<char>, UrlError>(e),
        },
{
    let items = feed_items(cfg, pages, spec);
    let ghost order = feed_order(*cfg, pages@, *spec);
    proof {
        assert(summaries_match(items@, picked(pages@, order))) by {
            assert forall|k: int| 0 <= k < items@.len() implies same_summary(
                #[trigger] items@[k],
                picked(pages@, order)[k],
            ) by {
                assert(0 <= order[k] < pages@.len());
            }
        }
        lemma_rss_items_match(cfg.base_url@, items@, picked(pages@, order));
        lemma_latest_of_match(items@, picked(pages@, order));
    }
    let link = feed_link(&spec.link);
    let self_url = match public_file_url(spec.path.as_str()) {
        Ok(u) => u,
        Err(e) => return Err(e),
    };
    let base = cfg.base_url.as_str();
    let mut x = String::new();
    append(&mut x, "<?xml version=\"1.0\" encoding=\"utf-8\"?>\n<rss version=\"2.0\"><channel><title>");
    append(&mut x, escape_xml(feed_title(cfg, spec).as_str()).as_str());
    append(&mut x, "</title><link>");
    append(&mut x, escape_xml(absolute_url(base, link.as_str()).as_str()).as_str());
    append(&mut x, "</link><description>");
    append(&mut x, escape_xml(feed_description(cfg, spec).as_str()).as_str());
    append(&mut x, "</description>\n");
    append(&mut x, "<atom:link xmlns:atom=\"http://www.w3.org/2005/Atom\" href=\"");
    append(&mut x, escape_xml(absolute_url(base, self_url.as_str()).as_str()).as_str());
    append(&mut x, "\" rel=\"self\" type=\"application/rss+xml\"/>\n");
    let ghost head = x@;
    match latest_page_date(&items) {
        Some(d) => {
            append(&mut x, "<lastBuildDate>");
            append(&mut x, escape_xml(rss_date(d.as_str()).as_str()).as_str());
            append(&mut x, "</lastBuildDate>\n");
        },
        None => {},
    }
    append(&mut x, rss_items(base, &items).as_str());
    append(&mut x, "</channel></rss>\n");
    assert(x@ =~= rss_xml_of(
        feed_title_of(*cfg, *spec),
        feed_link_of(spec.link@),
        feed_description_of(*cfg, *spec),
        self_url@,
        cfg.base_url@,
        items@,
    ));
    Ok(x)
}

/// The Atom timestamp of a page: that of its change date, else the epoch.
pub open spec fn atom_updated_of(d: Option<Seq<char>>) -> Seq<char> {
    match d {
        Some(x) => atom_date_of(x),
        None => "1970-01-01T00:00:00Z"@,
    }
}

/// The Atom entry of a page.
pub open spec fn atom_entry_of(base: Seq<char>, p: PageSummary) -> Seq<char> {
    let url = xml(absolute_url_of(base, p.url@));
    "  <entry>\n    <title>"@ + xml(p.title@) + "</title>\n    <id>"@ + url
        + "</id>\n    <link href=\""@ + url + "\"/>\n    <updated>"@ + xml(
        atom_updated_of(page_date_of(p)),
    ) + "</updated>\n"@ + (match summary_text_of(p) {
        Some(d) => "    <summary>"@ + xml(d) + "</summary>\n"@,
        None => Seq::<char>::empty(),
    }) + "  </entry>\n"@
}

/// The Atom entries of the pages, in order.
pub open spec fn atom_entries_of(base: Seq<char>, items: Seq<PageSummary>) -> Seq<char>
    decreases items.len(),
{
    if items.len() == 0 {
        Seq::<char>::empty()
    } else {
        atom_entries_of(base, items.drop_last()) + atom_entry_of(base, items.last())
    }
}

/// An Atom feed: its title, the site as its id and link, its own URL, the
/// latest date of its entries, then its entries.
pub open spec fn atom_xml_of(title: Seq<char>, self_url: Seq<char>, base: Seq<char>, items: Seq<PageSummary>) -> Seq<char> {
    let home = xml(absolute_url_of(base, "/"@));
    "<?xml version=\"1.0\" encoding=\"utf-8\"?>\n<feed xmlns=\"http://www.w3.org/2005/Atom\">\n  <title>"@
        + xml(title) + "</title>\n  <id>"@ + home + "</id>\n  <link href=\""@ + home
        + "\"/>\n  <link rel=\"self\" href=\""@ + xml(absolute_url_of(base, self_url))
        + "\"/>\n  <updated>"@ + xml(atom_updated_of(latest_of(items))) + "</updated>\n"@
        + atom_entries_of(base, items) + "</feed>\n"@
}

/// The feed settings the Atom feed uses: the site's feed settings at the
/// Atom path.
pub open spec fn atom_spec_of(cfg: Config) -> FeedConfig {
    FeedConfig {
        path: cfg.atom_path,
        title: cfg.feed_title,
        description: cfg.feed_description,
        link: cfg.feed_link,
        section: None,
        sections: cfg.feed_sections,
        limit: cfg.feed_limit,
    }
}

/// The Atom entries depend only on what the summaries say.
pub proof fn lemma_atom_entries_match(base: Seq<char>, a: Seq<PageSummary>, b: Seq<PageSummary>)
    requires
        summaries_match(a, b),
    ensures
        atom_entries_of(base, a) == atom_entries_of(base, b),
    decreases a.len(),
{
    if a.len() > 0 {
        assert(same_summary(a[a.len() - 1], b[b.len() - 1]));
        assert(summaries_match(a.drop_last(), b.drop_last())) by {
            assert forall|k: int| 0 <= k < a.drop_last().len() implies same_summary(
                #[trigger] a.drop_last()[k],
                b.drop_last()[k],
            ) by {
                assert(same_summary(a[k], b[k]));
            }
        }
        lemma_atom_entries_match(base, a.drop_last(), b.drop_last());
    }
}

fn atom_updated(d: Option<String>) -> (r: String)
    ensures
        r@ == atom_updated_of(opt_text(d)),
{
    match d {
        Some(x) => atom_date(x.as_str()),
        None => String::from_str("1970-01-01T00:00:00Z"),
    }
}

fn atom_entry(base: &str, p: &PageSummary) -> (r: String)
    ensures
        r@ == atom_entry_of(base@, *p),
{
    let url = escape_xml(absolute_url(base, p.url.as_str()).as_str());
    let mut x = String::new();
    append(&mut x, "  <entry>\n    <title>");
    append(&mut x, escape_xml(p.title.as_str()).as_str());
    append(&mut x, "</title>\n    <id>");
    append(&mut x, url.as_str());
    append(&mut x, "</id>\n    <link href=\"");
    append(&mut x, url.as_str());
    append(&mut x, "\"/>\n    <updated>");
    append(&mut x, escape_xml(atom_updated(page_date(p)).as_str()).as_str());
    append(&mut x, "</updated>\n");
    let ghost head = x@;
    let summary = match &p.excerpt {
        Some(e) => Some(e),
        None => match &p.description {
            Some(d) => Some(d),
            None => None,
        },
    };
    match summary {
        Some(d) => {
            append(&mut x, "    <summary>");
            append(&mut x, escape_xml(d.as_str()).as_str());
            append(&mut x, "</summary>\n");
        },
        None => {},
    }
    append(&mut x, "  </entry>\n");
    assert(x@ =~= atom_entry_of(base@, *p));
    x
}

/// The text of the site's Atom feed: the pages its feed settings list
/// (see `feed_order`), at the Atom path. A feed whose path is no safe
/// public path is refused.
pub fn atom_feed(cfg: &Config, pages: &Vec<PageSummary>) -> (r: Result<String, UrlError>)
    ensures
        match r {
            Ok(x) => public_file_url_of(cfg.atom_path@) matches Ok(u) && x@ == atom_xml_of(
                feed_title_of(*cfg, atom_spec_of(*cfg)),
                u,
                cfg.base_url@,
                picked(pages@, feed_order(*cfg, pages@, atom_spec_of(*cfg))),
            ),
            Err(e) => public_file_url_of(cfg.atom_path@) == Err::<Seq<char>, UrlError>(e),
        },
{
    let spec = FeedConfig {
        path: cfg.atom_path.clone(),
        title: match &cfg.feed_title {
            Some(t) => Some(t.clone()),
            None => None,
        },
        description: match &cfg.feed_description {
            Some(t) => Some(t.clone()),
            None => None,
        },
        link: cfg.feed_link.clone(),
        section: None,
        sections: crate::model::copy_strings(&cfg.feed_sections),
        limit: cfg.feed_limit,
    };
    let items = feed_items(cfg, pages, &spec);
    let ghost order = feed_order(*cfg, pages@, spec);
    proof {
        assert(crate::script::string_views(spec.sections@) == crate::script::string_views(
            cfg.feed_sections@,
        ));
        assert(order == feed_order(*cfg, pages@, atom_spec_of(*cfg)));
        assert(summaries_match(items@, picked(pages@, order))) by {
            assert forall|k: int| 0 <= k < items@.len() implies same_summary(
                #[trigger] items@[k],
                picked(pages@, order)[k],
            ) by {
                assert(0 <= order[k] < pages@.len());
            }
        }
        lemma_atom_entries_match(cfg.base_url@, items@, picked(pages@, order));
        lemma_latest_of_match(items@, picked(pages@, order));
    }
    let self_url = match public_file_url(cfg.atom_path.as_str()) {
        Ok(u) => u,
        Err(e) => return Err(e),
    };
    let base = cfg.base_url.as_str();
    let home = escape_xml(absolute_url(base, "/").as_str());
    let mut x = String::new();
    append(
        &mut x,
        "<?xml version=\"1.0\" encoding=\"utf-8\"?>\n<feed xmlns=\"http://www.w3.org/2005/Atom\">\n  <title>",
    );
    append(&mut x, escape_xml(feed_title(cfg, &spec).as_str()).as_str());
    append(&mut x, "</title>\n  <id>");
    append(&mut x, home.as_str());
    append(&mut x, "</id>\n  <link href=\"");
    append(&mut x, home.as_str());
    append(&mut x, "\"/>\n  <link rel=\"self\" href=\"");
    append(&mut x, escape_xml(absolute_url(base, self_url.as_str()).as_str()).as_str());
    append(&mut x, "\"/>\n  <updated>");
    append(&mut x, escape_xml(atom_updated(latest_page_date(&items)).as_str()).as_str());
    append(&mut x, "</updated>\n");
    let mut i: usize = 0;
    let ghost head = x@;
    while i < items.len()
        invariant
            i <= items@.len(),
            x@ == head + atom_entries_of(cfg.base_url@, items@.take(i as int)),
            base@ == cfg.base_url@,
        decreases items.len() - i,
    {
        assert(items@.take(i + 1).drop_last() =~= items@.take(i as int));
        assert(items@.take(i + 1).last() == items@[i as int]);
        let entry = atom_entry(base, &items[i]);
        append(&mut x, entry.as_str());
        assert(x@ =~= head + atom_entries_of(cfg.base_url@, items@.take(i + 1)));
        i += 1;
    }
    assert(items@.take(items@.len() as int) =~= items@);
    append(&mut x, "</feed>\n");
    assert(feed_title_of(*cfg, spec) == feed_title_of(*cfg, atom_spec_of(*cfg)));
    assert(x@ =~= atom_xml_of(
        feed_title_of(*cfg, atom_spec_of(*cfg)),
        self_url@,
        cfg.base_url@,
        items@,
    ));
    Ok(x)
}

// ---------------------------------------------------------------------------
// Sitemap
// ---------------------------------------------------------------------------

/// The routes a sitemap lists, each with the change date it offers for
/// the route: the pages with their change dates, then the generated pages
/// with the latest change date of their items.
pub open spec fn sitemap_entries(
    pages: Seq<PageSummary>,
    gens: Seq<GeneratedPage>,
) -> Seq<(Seq<char>, Option<Seq<char>>)> {
    pages.map_values(|p: PageSummary| (p.url@, page_date_of(p))) + gens.map_values(
        |g: GeneratedPage| (g.url@, latest_of(g.items@)),
    )
}

/// The latest change date the entries offer for route `u`.
pub open spec fn lastmod_of(entries: Seq<(Seq<char>, Option<Seq<char>>)>, u: Seq<char>) -> Option<Seq<char>>
    decreases entries.len(),
{
    if entries.len() == 0 {
        None
    } else if entries.last().0 == u {
        newest_of(lastmod_of(entries.drop_last(), u), entries.last().1)
    } else {
        lastmod_of(entries.drop_last(), u)
    }
}

/// The routes of the entries, in ascending order, each once.
pub open spec fn sitemap_routes(entries: Seq<(Seq<char>, Option<Seq<char>>)>) -> Seq<Seq<char>> {
    insert_names(Seq::<Seq<char>>::empty(), entries.map_values(|e: (Seq<char>, Option<Seq<char>>)| e.0))
}

/// The sitemap record of a route.
pub open spec fn sitemap_url_of(base: Seq<char>, u: Seq<char>, lastmod: Option<Seq<char>>) -> Seq<char> {
    "  <url>\n    <loc>"@ + xml(absolute_url_of(base, u)) + "</loc>\n"@ + (match lastmod {
        Some(d) => "    <lastmod>"@ + xml(d) + "</lastmod>\n"@,
        None => Seq::<char>::empty(),
    }) + "  </url>\n"@
}

/// The sitemap records of the routes, in order.
pub open spec fn sitemap_urls_of(
    base: Seq<char>,
    routes: Seq<Seq<char>>,
    entries: Seq<(Seq<char>, Option<Seq<char>>)>,
) -> Seq<char>
    decreases routes.len(),
{
    if routes.len() == 0 {
        Seq::<char>::empty()
    } else {
        sitemap_urls_of(base, routes.drop_last(), entries) + sitemap_url_of(
            base,
            routes.last(),
            lastmod_of(entries, routes.last()),
        )
    }
}

/// A sitemap: a record for each route of the site, in ascending order,
/// with the latest change date offered for it.
pub open spec fn sitemap_xml_of(base: Seq<char>, pages: Seq<PageSummary>, gens: Seq<GeneratedPage>) -> Seq<char> {
    let entries = sitemap_entries(pages, gens);
    "<?xml version=\"1.0\" encoding=\"utf-8\"?>\n<urlset xmlns=\"http://www.sitemaps.org/schemas/sitemap/0.9\">\n"@
        + sitemap_urls_of(base, sitemap_routes(entries), entries) + "</urlset>\n"@
}

spec fn entry_views(v: Seq<(String, Option<String>)>) -> Seq<(Seq<char>, Option<Seq<char>>)> {
    v.map_values(|e: (String, Option<String>)| (e.0@, opt_text(e.1)))
}

/// The text of the sitemap; none when the site has no base URL (a
/// sitemap needs absolute URLs).
pub fn sitemap_xml(cfg: &Config, pages: &Vec<PageSummary>, generated: &Vec<GeneratedPage>) -> (r: Option<String>)
    ensures
        match r {
            Some(x) => trim(cfg.base_url@).len() > 0 && x@ == sitemap_xml_of(cfg.base_url@, pages@, generated@),
            None => trim(cfg.base_url@).len() == 0,
        },
{
    if trim_vec(&chars_of(cfg.base_url.as_str())).len() == 0 {
        return None;
    }
    let ghost all = sitemap_entries(pages@, generated@);
    let mut entries: Vec<(String, Option<String>)> = Vec::new();
    let mut i: usize = 0;
    while i < pages.len()
        invariant
            i <= pages@.len(),
            all == sitemap_entries(pages@, generated@),
            entry_views(entries@) == all.take(i as int),
        decreases pages.len() - i,
    {
        let ghost before = entry_views(entries@);
        entries.push((pages[i].url.clone(), page_date(&pages[i])));
        assert(entry_views(entries@) =~= before.push(all[i as int]));
        assert(all.take(i + 1) =~= all.take(i as int).push(all[i as int]));
        i += 1;
    }
    let mut j: usize = 0;
    while j < generated.len()
        invariant
            j <= generated@.len(),
            all == sitemap_entries(pages@, generated@),
            entry_views(entries@) == all.take(pages@.len() + j),
        decreases generated.len() - j,
    {
        let ghost before = entry_views(entries@);
        entries.push((generated[j].url.clone(), latest_page_date(&generated[j].items)));
        assert(all[pages@.len() + j] == (generated@[j as int].url@, latest_of(generated@[j as int].items@)));
        assert(entry_views(entries@) =~= before.push(all[pages@.len() + j]));
        assert(all.take(pages@.len() + j + 1) =~= all.take(pages@.len() + j).push(all[pages@.len() + j]));
        j += 1;
    }
    assert(all.take((pages@.len() + generated@.len()) as int) =~= all);
    let ghost keys = all.map_values(|e: (Seq<char>, Option<Seq<char>>)| e.0);
    let mut routes: Vec<String> = Vec::new();
    let mut k: usize = 0;
    assert(keys.take(0) =~= Seq::<Seq<char>>::empty());
    while k < entries.len()
        invariant
            k <= entries@.len(),
            entry_views(entries@) == all,
            keys == all.map_values(|e: (Seq<char>, Option<Seq<char>>)| e.0),
            string_views(routes@) == insert_names(Seq::<Seq<char>>::empty(), keys.take(k as int)),
        decreases entries.len() - k,
    {
        assert(keys.take(k + 1).drop_last() =~= keys.take(k as int));
        assert(keys.take(k + 1).last() == entries@[k as int].0@);
        insert_name_vec(&mut routes, &entries[k].0);
        k += 1;
    }
    assert(keys.take(entries@.len() as int) =~= keys);
    let ghost rv = string_views(routes@);
    let base = cfg.base_url.as_str();
    let mut x = String::new();
    append(
        &mut x,
        "<?xml version=\"1.0\" encoding=\"utf-8\"?>\n<urlset xmlns=\"http://www.sitemaps.org/schemas/sitemap/0.9\">\n",
    );
    let ghost head = x@;
    let mut r: usize = 0;
    while r < routes.len()
        invariant
            r <= routes@.len(),
            rv == string_views(routes@),
            entry_views(entries@) == all,
            base@ == cfg.base_url@,
            x@ == head + sitemap_urls_of(cfg.base_url@, rv.take(r as int), all),
        decreases routes.len() - r,
    {
        let u = &routes[r];
        let uc = chars_of(u.as_str());
        let mut lastmod: Option<String> = None;
        let mut q: usize = 0;
        while q < entries.len()
            invariant
                q <= entries@.len(),
                entry_views(entries@) == all,
                uc@ == u@,
                opt_text(lastmod) == lastmod_of(all.take(q as int), u@),
            decreases entries.len() - q,
        {
            assert(all.take(q + 1).drop_last() =~= all.take(q as int));
            assert(all.take(q + 1).last() == all[q as int]);
            assert(all[q as int] == (entries@[q as int].0@, opt_text(entries@[q as int].1)));
            let ec = chars_of(entries[q].0.as_str());
            if crate::text::vec_eq(&ec, &uc) {
                let d = match &entries[q].1 {
                    Some(d) => Some(d.clone()),
                    None => None,
                };
                lastmod = newest_date(lastmod, d);
            }
            q += 1;
        }
        assert(all.take(entries@.len() as int) =~= all);
        assert(rv.take(r + 1).drop_last() =~= rv.take(r as int));
        assert(rv.take(r + 1).last() == u@);
        append(&mut x, "  <url>\n    <loc>");
        append(&mut x, escape_xml(absolute_url(base, u.as_str()).as_str()).as_str());
        append(&mut x, "</loc>\n");
        match &lastmod {
            Some(d) => {
                append(&mut x, "    <lastmod>");
                append(&mut x, escape_xml(d.as_str()).as_str());
                append(&mut x, "</lastmod>\n");
            },
            None => {},
        }
        append(&mut x, "  </url>\n");
        assert(x@ =~= head + sitemap_urls_of(cfg.base_url@, rv.take(r + 1), all));
        r += 1;
    }
    assert(rv.take(routes@.len() as int) =~= rv);
    append(&mut x, "</urlset>\n");
    assert(x@ =~= sitemap_xml_of(cfg.base_url@, pages@, generated@));
    Some(x)
}

// ---------------------------------------------------------------------------
// Alias redirects
// ---------------------------------------------------------------------------

/// The page that sends a visitor of an alias to the page's canonical URL.
pub open spec fn redirect_html_of(canonical: Seq<char>) -> Seq<char> {
    let c = xml(canonical);
    "<!doctype html><meta charset=\"utf-8\"><title>Redirect</title><link rel=\"canonical\" href=\""@
        + c + "\"><meta http-equiv=\"refresh\" content=\"0; url="@ + c + "\"><p><a href=\""@ + c
        + "\">Moved</a></p>\n"@
}

/// The aliases of the pages, in order, each with its page's canonical URL.
pub open spec fn alias_steps(pages: Seq<Page>) -> Seq<(Seq<char>, Seq<char>)>
    decreases pages.len(),
{
    if pages.len() == 0 {
        Seq::<(Seq<char>, Seq<char>)>::empty()
    } else {
        let p = pages.last();
        alias_steps(pages.drop_last()) + string_views(p.meta.aliases@).map_values(
            |a: Seq<char>| (a, p.canonical_url@),
        )
    }
}

/// Where the redirect of an alias goes and what it says.
pub open spec fn redirect_of(out_root: Seq<char>, alias: Seq<char>, canonical: Seq<char>) -> Result<(Seq<char>, Seq<char>), UrlError> {
    match directory_url(alias) {
        Err(e) => Err(e),
        Ok(u) => match output_path_of(out_root, u) {
            Err(e) => Err(e),
            Ok(p) => Ok((p, redirect_html_of(canonical))),
        },
    }
}

/// The redirects of the aliases up to the first that fails, and that
/// failure.
pub open spec fn redirects_of(out_root: Seq<char>, steps: Seq<(Seq<char>, Seq<char>)>) -> (Seq<(Seq<char>, Seq<char>)>, Option<UrlError>)
    decreases steps.len(),
{
    if steps.len() == 0 {
        (Seq::<(Seq<char>, Seq<char>)>::empty(), None)
    } else {
        let (prev, err) = redirects_of(out_root, steps.drop_last());
        if err is Some {
            (prev, err)
        } else {
            match redirect_of(out_root, steps.last().0, steps.last().1) {
                Ok(x) => (prev.push(x), None),
                Err(e) => (prev, Some(e)),
            }
        }
    }
}

/// The texts of pairs of strings.
pub open spec fn pair_texts(v: Seq<(String, String)>) -> Seq<(Seq<char>, Seq<char>)> {
    v.map_values(|p: (String, String)| (p.0@, p.1@))
}

proof fn lemma_redirects_keep_fault(out_root: Seq<char>, s: Seq<(Seq<char>, Seq<char>)>, t: Seq<(Seq<char>, Seq<char>)>)
    requires
        redirects_of(out_root, s).1 is Some,
    ensures
        redirects_of(out_root, s + t) == redirects_of(out_root, s),
    decreases t.len(),
{
    if t.len() == 0 {
        assert(s + t =~= s);
    } else {
        lemma_redirects_keep_fault(out_root, s, t.drop_last());
        assert((s + t).drop_last() =~= s + t.drop_last());
    }
}

/// The aliases of the pages with their pages' canonical URLs.
fn alias_list(pages: &Vec<Page>) -> (r: Vec<(String, String)>)
    ensures
        pair_texts(r@) == alias_steps(pages@),
{
    let mut out: Vec<(String, String)> = Vec::new();
    let mut i: usize = 0;
    assert(pair_texts(out@) =~= Seq::<(Seq<char>, Seq<char>)>::empty());
    while i < pages.len()
        invariant
            i <= pages@.len(),
            pair_texts(out@) == alias_steps(pages@.take(i as int)),
        decreases pages.len() - i,
    {
        let page = &pages[i];
        assert(pages@.take(i + 1).drop_last() =~= pages@.take(i as int));
        assert(pages@.take(i + 1).last() == *page);
        let ghost base = pair_texts(out@);
        let ghost mine = string_views(page.meta.aliases@).map_values(
            |a: Seq<char>| (a, page.canonical_url@),
        );
        let mut j: usize = 0;
        assert(base + mine.take(0) =~= base);
        while j < page.meta.aliases.len()
            invariant
                j <= page.meta.aliases@.len(),
                mine == string_views(page.meta.aliases@).map_values(
                    |a: Seq<char>| (a, page.canonical_url@),
                ),
                pair_texts(out@) == base + mine.take(j as int),
            decreases page.meta.aliases.len() - j,
        {
            let ghost before = pair_texts(out@);
            out.push((page.meta.aliases[j].clone(), page.canonical_url.clone()));
            assert(pair_texts(out@) =~= before.push((page.meta.aliases@[j as int]@, page.canonical_url@)));
            assert(mine[j as int] == (page.meta.aliases@[j as int]@, page.canonical_url@));
            assert(mine.take(j + 1) =~= mine.take(j as int).push(mine[j as int]));
            assert(pair_texts(out@) =~= base + mine.take(j + 1));
            j += 1;
        }
        assert(mine.take(page.meta.aliases@.len() as int) =~= mine);
        i += 1;
    }
    assert(pages@.take(pages@.len() as int) =~= pages@);
    out
}

/// The redirect pages of the pages' aliases (file and text), up to the
/// first alias that is no safe URL, and that alias's fault.
pub fn alias_redirects(out_root: &str, pages: &Vec<Page>) -> (r: (Vec<(String, String)>, Option<UrlError>))
    ensures
        (pair_texts(r.0@), r.1) == redirects_of(out_root@, alias_steps(pages@)),
{
    let steps = alias_list(pages);
    let ghost all = pair_texts(steps@);
    let mut out: Vec<(String, String)> = Vec::new();
    let mut i: usize = 0;
    assert(all.take(0) =~= Seq::<(Seq<char>, Seq<char>)>::empty());
    assert(pair_texts(out@) =~= Seq::<(Seq<char>, Seq<char>)>::empty());
    while i < steps.len()
        invariant
            i <= steps@.len(),
            all == pair_texts(steps@),
            all == alias_steps(pages@),
            (pair_texts(out@), None::<UrlError>) == redirects_of(out_root@, all.take(i as int)),
        decreases steps.len() - i,
    {
        assert(all.take(i + 1).drop_last() =~= all.take(i as int));
        assert(all.take(i + 1).last() == (steps@[i as int].0@, steps@[i as int].1@));
        assert(all.take(i + 1) + all.skip(i + 1) =~= all);
        let alias_url = match alias_to_url(steps[i].0.as_str()) {
            Ok(u) => u,
            Err(e) => {
                proof {
                    lemma_redirects_keep_fault(out_root@, all.take(i + 1), all.skip(i + 1));
                }
                return (out, Some(e));
            },
        };
        let path = match output_path_for_url(out_root, alias_url.as_str()) {
            Ok(p) => p,
            Err(e) => {
                proof {
                    lemma_redirects_keep_fault(out_root@, all.take(i + 1), all.skip(i + 1));
                }
                return (out, Some(e));
            },
        };
        let c = escape_xml(steps[i].1.as_str());
        let mut html = String::new();
        append(
            &mut html,
            "<!doctype html><meta charset=\"utf-8\"><title>Redirect</title><link rel=\"canonical\" href=\"",
        );
        append(&mut html, c.as_str());
        append(&mut html, "\"><meta http-equiv=\"refresh\" content=\"0; url=");
        append(&mut html, c.as_str());
        append(&mut html, "\"><p><a href=\"");
        append(&mut html, c.as_str());
        append(&mut html, "\">Moved</a></p>\n");
        assert(html@ =~= redirect_html_of(steps@[i as int].1@));
        let ghost before = pair_texts(out@);
        out.push((path, html));
        assert(pair_texts(out@) =~= before.push((out@[out@.len() - 1].0@, out@[out@.len() - 1].1@)));
        i += 1;
    }
    assert(all.take(steps@.len() as int) =~= all);
    (out, None)
}

// ---------------------------------------------------------------------------
// The files a build keeps
// ---------------------------------------------------------------------------

/// Whether a build writes a page's PDF.
pub open spec fn wants_pdf(cfg: Config, page: Page, build_pdf_flag: bool) -> bool {
    build_pdf_flag || cfg.build_pdf || page.meta.build_pdf == Some(true)
}

/// The files of a page: its HTML, its PDF when wanted, and the redirect
/// of each alias.
pub open spec fn page_output_steps(cfg: Config, out_root: Seq<char>, page: Page, build_pdf_flag: bool) -> Seq<Result<Seq<char>, UrlError>> {
    seq![Ok::<Seq<char>, UrlError>(page.output_html@)] + (if wants_pdf(cfg, page, build_pdf_flag) {
        seq![Ok::<Seq<char>, UrlError>(page.output_pdf@)]
    } else {
        Seq::<Result<Seq<char>, UrlError>>::empty()
    }) + string_views(page.meta.aliases@).map_values(
        |a: Seq<char>| match directory_url(a) {
            Err(e) => Err(e),
            Ok(u) => output_path_of(out_root, u),
        },
    )
}

/// The files of the pages, page after page.
pub open spec fn pages_output_steps(cfg: Config, out_root: Seq<char>, pages: Seq<Page>, build_pdf_flag: bool) -> Seq<Result<Seq<char>, UrlError>>
    decreases pages.len(),
{
    if pages.len() == 0 {
        Seq::<Result<Seq<char>, UrlError>>::empty()
    } else {
        pages_output_steps(cfg, out_root, pages.drop_last(), build_pdf_flag) + page_output_steps(
            cfg,
            out_root,
            pages.last(),
            build_pdf_flag,
        )
    }
}

/// The files of the generated pages.
pub open spec fn generated_output_steps(gens: Seq<GeneratedPage>) -> Seq<Result<Seq<char>, UrlError>> {
    gens.map_values(|g: GeneratedPage| Ok::<Seq<char>, UrlError>(g.output_html@))
}

/// The static files (given relative to their static root) under the
/// output root.
pub open spec fn static_output_steps(out_root: Seq<char>, static_files: Seq<Seq<char>>) -> Seq<Result<Seq<char>, UrlError>> {
    static_files.map_values(|rel: Seq<char>| Ok::<Seq<char>, UrlError>(join_path_of(out_root, rel)))
}

/// The feeds of a site that writes feeds: its RSS feed, its Atom feed
/// when it writes one, and its further feeds.
pub open spec fn feed_output_steps(cfg: Config, out_root: Seq<char>) -> Seq<Result<Seq<char>, UrlError>> {
    if cfg.feed {
        seq![public_file_path_of(out_root, cfg.feed_path@)] + (if cfg.atom_feed {
            seq![public_file_path_of(out_root, cfg.atom_path@)]
        } else {
            Seq::<Result<Seq<char>, UrlError>>::empty()
        }) + cfg.feeds@.map_values(|f: FeedConfig| public_file_path_of(out_root, f.path@))
    } else {
        Seq::<Result<Seq<char>, UrlError>>::empty()
    }
}

/// The site files: the sitemap (with a base URL), the feeds, the robots
/// file and the search index, each when the site writes it.
pub open spec fn site_output_steps(cfg: Config, out_root: Seq<char>) -> Seq<Result<Seq<char>, UrlError>> {
    (if cfg.sitemap && trim(cfg.base_url@).len() > 0 {
        seq![Ok::<Seq<char>, UrlError>(join_path_of(out_root, "sitemap.xml"@))]
    } else {
        Seq::<Result<Seq<char>, UrlError>>::empty()
    }) + feed_output_steps(cfg, out_root) + (if cfg.robots {
        seq![Ok::<Seq<char>, UrlError>(join_path_of(out_root, "robots.txt"@))]
    } else {
        Seq::<Result<Seq<char>, UrlError>>::empty()
    }) + (if cfg.search.enabled {
        seq![Ok::<Seq<char>, UrlError>(join_path_of(out_root, "search_index.json"@))]
    } else {
        Seq::<Result<Seq<char>, UrlError>>::empty()
    })
}

/// The files a build keeps under the output root, in order: those of the
/// pages, of the generated pages, the static files, and the site files.
pub open spec fn output_steps(
    cfg: Config,
    static_files: Seq<Seq<char>>,
    out_root: Seq<char>,
    pages: Seq<Page>,
    gens: Seq<GeneratedPage>,
    build_pdf_flag: bool,
) -> Seq<Result<Seq<char>, UrlError>> {
    pages_output_steps(cfg, out_root, pages, build_pdf_flag) + generated_output_steps(gens)
        + static_output_steps(out_root, static_files) + site_output_steps(cfg, out_root)
}

/// The files of the steps, or the first fault among them.
pub open spec fn outputs_of(steps: Seq<Result<Seq<char>, UrlError>>) -> Result<Seq<Seq<char>>, UrlError>
    decreases steps.len(),
{
    if steps.len() == 0 {
        Ok(Seq::<Seq<char>>::empty())
    } else {
        match outputs_of(steps.drop_last()) {
            Err(e) => Err(e),
            Ok(prev) => match steps.last() {
                Ok(p) => Ok(prev.push(p)),
                Err(e) => Err(e),
            },
        }
    }
}

pub open spec fn result_views(v: Seq<Result<String, UrlError>>) -> Seq<Result<Seq<char>, UrlError>> {
    v.map_values(
        |r: Result<String, UrlError>| match r {
            Ok(p) => Ok::<Seq<char>, UrlError>(p@),
            Err(e) => Err::<Seq<char>, UrlError>(e),
        },
    )
}

proof fn lemma_outputs_keep_fault(s: Seq<Result<Seq<char>, UrlError>>, t: Seq<Result<Seq<char>, UrlError>>, e: UrlError)
    requires
        outputs_of(s) == Err::<Seq<Seq<char>>, UrlError>(e),
    ensures
        outputs_of(s + t) == Err::<Seq<Seq<char>>, UrlError>(e),
    decreases t.len(),
{
    if t.len() == 0 {
        assert(s + t =~= s);
    } else {
        lemma_outputs_keep_fault(s, t.drop_last(), e);
        assert((s + t).drop_last() =~= s + t.drop_last());
    }
}

/// The files of the steps, or the first fault among them.
fn collect_outputs(steps: Vec<Result<String, UrlError>>) -> (r: Result<Vec<String>, UrlError>)
    ensures
        match r {
            Ok(v) => outputs_of(result_views(steps@)) == Ok::<Seq<Seq<char>>, UrlError>(string_views(v@)),
            Err(e) => outputs_of(result_views(steps@)) == Err::<Seq<Seq<char>>, UrlError>(e),
        },
{
    let ghost all = result_views(steps@);
    let mut out: Vec<String> = Vec::new();
    let mut i: usize = 0;
    assert(all.take(0) =~= Seq::<Result<Seq<char>, UrlError>>::empty());
    assert(string_views(out@) =~= Seq::<Seq<char>>::empty());
    while i < steps.len()
        invariant
            i <= steps@.len(),
            all == result_views(steps@),
            outputs_of(all.take(i as int)) == Ok::<Seq<Seq<char>>, UrlError>(string_views(out@)),
        decreases steps.len() - i,
    {
        assert(all.take(i + 1).drop_last() =~= all.take(i as int));
        assert(all.take(i + 1).last() == all[i as int]);
        match &steps[i] {
            Ok(p) => {
                let ghost before = string_views(out@);
                out.push(p.clone());
                assert(string_views(out@) =~= before.push(p@));
            },
            Err(e) => {
                proof {
                    lemma_outputs_keep_fault(all.take(i + 1), all.skip(i + 1), *e);
                    assert(all.take(i + 1) + all.skip(i + 1) =~= all);
                }
                return Err(*e);
            },
        }
        i += 1;
    }
    assert(all.take(steps@.len() as int) =~= all);
    Ok(out)
}

/// Appends a step.
fn push_step(steps: &mut Vec<Result<String, UrlError>>, step: Result<String, UrlError>)
    ensures
        result_views(final(steps)@) == result_views(old(steps)@).push(
            match step {
                Ok(p) => Ok::<Seq<char>, UrlError>(p@),
                Err(e) => Err::<Seq<char>, UrlError>(e),
            },
        ),
{
    let ghost before = result_views(steps@);
    steps.push(step);
    assert(result_views(steps@) =~= before.push(result_views(steps@)[steps@.len() - 1]));
}

/// The steps of the pages' files.
fn page_steps(cfg: &Config, out_root: &str, pages: &Vec<Page>, build_pdf_flag: bool) -> (steps: Vec<Result<String, UrlError>>)
    ensures
        result_views(steps@) == pages_output_steps(*cfg, out_root@, pages@, build_pdf_flag),
{
    let mut steps: Vec<Result<String, UrlError>> = Vec::new();
    assert(result_views(steps@) =~= Seq::<Result<Seq<char>, UrlError>>::empty());
    // The pages.
    let mut i: usize = 0;
    while i < pages.len()
        invariant
            i <= pages@.len(),
            result_views(steps@) == pages_output_steps(*cfg, out_root@, pages@.take(i as int), build_pdf_flag),
        decreases pages.len() - i,
    {
        let page = &pages[i];
        assert(pages@.take(i + 1).drop_last() =~= pages@.take(i as int));
        assert(pages@.take(i + 1).last() == *page);
        let ghost start = result_views(steps@);
        let ghost mine = page_output_steps(*cfg, out_root@, *page, build_pdf_flag);
        push_step(&mut steps, Ok(page.output_html.clone()));
        let pdf = match page.meta.build_pdf {
            Some(b) => b,
            None => false,
        };
        if build_pdf_flag || cfg.build_pdf || pdf {
            push_step(&mut steps, Ok(page.output_pdf.clone()));
        }
        let ghost k: int = if wants_pdf(*cfg, *page, build_pdf_flag) {
            2
        } else {
            1
        };
        assert(result_views(steps@) =~= start + mine.take(k));
        let mut j: usize = 0;
        while j < page.meta.aliases.len()
            invariant
                j <= page.meta.aliases@.len(),
                mine == page_output_steps(*cfg, out_root@, *page, build_pdf_flag),
                k + page.meta.aliases@.len() == mine.len(),
                result_views(steps@) == start + mine.take(k + j),
            decreases page.meta.aliases.len() - j,
        {
            let step = match alias_to_url(page.meta.aliases[j].as_str()) {
                Ok(u) => output_path_for_url(out_root, u.as_str()),
                Err(e) => Err(e),
            };
            push_step(&mut steps, step);
            assert(start + mine.take(k + j + 1) =~= (start + mine.take(k + j)).push(mine[k + j]));
            j += 1;
        }
        assert(mine.take(k + page.meta.aliases@.len()) =~= mine);
        i += 1;
    }
    assert(pages@.take(pages@.len() as int) =~= pages@);
    steps
}

/// Appends the steps of the generated pages' files.
fn push_generated_steps(steps: &mut Vec<Result<String, UrlError>>, generated: &Vec<GeneratedPage>)
    ensures
        result_views(final(steps)@) == result_views(old(steps)@) + generated_output_steps(generated@),
{
    let ghost start = result_views(steps@);
    let ghost gs = generated_output_steps(generated@);
    let mut g: usize = 0;
    assert(start + gs.take(0) =~= start);
    while g < generated.len()
        invariant
            g <= generated@.len(),
            gs == generated_output_steps(generated@),
            result_views(steps@) == start + gs.take(g as int),
        decreases generated.len() - g,
    {
        push_step(steps, Ok(generated[g].output_html.clone()));
        assert(start + gs.take(g + 1) =~= (start + gs.take(g as int)).push(gs[g as int]));
        g += 1;
    }
    assert(gs.take(generated@.len() as int) =~= gs);
}

/// Appends the steps of the static files.
fn push_static_steps(steps: &mut Vec<Result<String, UrlError>>, out_root: &str, static_files: &Vec<String>)
    ensures
        result_views(final(steps)@) == result_views(old(steps)@) + static_output_steps(
            out_root@,
            string_views(static_files@),
        ),
{
    let ghost start = result_views(steps@);
    let ghost ss = static_output_steps(out_root@, string_views(static_files@));
    let mut f: usize = 0;
    assert(start + ss.take(0) =~= start);
    while f < static_files.len()
        invariant
            f <= static_files@.len(),
            ss == static_output_steps(out_root@, string_views(static_files@)),
            result_views(steps@) == start + ss.take(f as int),
        decreases static_files.len() - f,
    {
        push_step(steps, Ok(join_path(out_root, static_files[f].as_str())));
        assert(start + ss.take(f + 1) =~= (start + ss.take(f as int)).push(ss[f as int]));
        f += 1;
    }
    assert(ss.take(static_files@.len() as int) =~= ss);
}

/// Appends the steps of the feeds.
fn push_feed_steps(steps: &mut Vec<Result<String, UrlError>>, cfg: &Config, out_root: &str)
    ensures
        result_views(final(steps)@) == result_views(old(steps)@) + feed_output_steps(*cfg, out_root@),
{
    let ghost start = result_views(steps@);
    if !cfg.feed {
        assert(start + feed_output_steps(*cfg, out_root@) =~= start);
        return;
    }
    push_step(steps, public_file_path(out_root, cfg.feed_path.as_str()));
    if cfg.atom_feed {
        push_step(steps, public_file_path(out_root, cfg.atom_path.as_str()));
    }
    let ghost before_feeds = result_views(steps@);
    let ghost fs = cfg.feeds@.map_values(|f: FeedConfig| public_file_path_of(out_root@, f.path@));
    let mut q: usize = 0;
    assert(before_feeds + fs.take(0) =~= before_feeds);
    while q < cfg.feeds.len()
        invariant
            q <= cfg.feeds@.len(),
            fs == cfg.feeds@.map_values(|f: FeedConfig| public_file_path_of(out_root@, f.path@)),
            result_views(steps@) == before_feeds + fs.take(q as int),
        decreases cfg.feeds.len() - q,
    {
        push_step(steps, public_file_path(out_root, cfg.feeds[q].path.as_str()));
        assert(before_feeds + fs.take(q + 1) =~= (before_feeds + fs.take(q as int)).push(fs[q as int]));
        q += 1;
    }
    assert(fs.take(cfg.feeds@.len() as int) =~= fs);
    assert(result_views(steps@) =~= start + feed_output_steps(*cfg, out_root@));
}

/// Appends the steps of the site files.
fn push_site_steps(steps: &mut Vec<Result<String, UrlError>>, cfg: &Config, out_root: &str)
    ensures
        result_views(final(steps)@) == result_views(old(steps)@) + site_output_steps(*cfg, out_root@),
{
    let ghost start = result_views(steps@);
    if cfg.sitemap && trim_vec(&chars_of(cfg.base_url.as_str())).len() > 0 {
        push_step(steps, Ok(join_path(out_root, "sitemap.xml")));
    }
    let ghost mid = result_views(steps@);
    push_feed_steps(steps, cfg, out_root);
    let ghost mid2 = result_views(steps@);
    if cfg.robots {
        push_step(steps, Ok(join_path(out_root, "robots.txt")));
    }
    let ghost mid3 = result_views(steps@);
    if cfg.search.enabled {
        push_step(steps, Ok(join_path(out_root, "search_index.json")));
    }
    assert(result_views(steps@) =~= start + site_output_steps(*cfg, out_root@));
}

/// The files a build keeps under the output root (see `output_steps`),
/// or the first fault of an alias or feed path.
pub fn desired_public_outputs(
    cfg: &Config,
    static_files: &Vec<String>,
    out_root: &str,
    pages: &Vec<Page>,
    generated: &Vec<GeneratedPage>,
    build_pdf_flag: bool,
) -> (r: Result<Vec<String>, UrlError>)
    ensures
        match r {
            Ok(v) => outputs_of(
                output_steps(*cfg, string_views(static_files@), out_root@, pages@, generated@, build_pdf_flag),
            ) == Ok::<Seq<Seq<char>>, UrlError>(string_views(v@)),
            Err(e) => outputs_of(
                output_steps(*cfg, string_views(static_files@), out_root@, pages@, generated@, build_pdf_flag),
            ) == Err::<Seq<Seq<char>>, UrlError>(e),
        },
{
    let mut steps = page_steps(cfg, out_root, pages, build_pdf_flag);
    push_generated_steps(&mut steps, generated);
    push_static_steps(&mut steps, out_root, static_files);
    push_site_steps(&mut steps, cfg, out_root);
    assert(result_views(steps@) =~= output_steps(
        *cfg,
        string_views(static_files@),
        out_root@,
        pages@,
        generated@,
        build_pdf_flag,
    ));
    collect_outputs(steps)
}

} // verus!
