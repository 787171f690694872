//! Page discovery: which content files are pages, and the page record a
//! build makes of each source once its metadata is read.
use vstd::prelude::*;

use crate::config::Config;
use crate::dates::{is_expired_date, is_future_date, page_day_of};
use crate::feed::text_lt;
use crate::model::{opt_text, FrontMatter, Page};
use crate::paths::{
    components, file_name, file_name_of, infer_section, is_content_partial, is_partial_path,
    is_typst_file, is_typst_path, join_path, join_path_of, path_components, section_of,
};
use crate::permalink::{
    address_of, date_slice_ok, default_title, default_title_of, opt_seq, page_address,
};
use crate::script::string_views;
use crate::text::{chars_of, eq_str, string_of, strip_start_char, trim, trim_start_char_vec, trim_vec, views};
use crate::url::{ancestors_of, parent_section_name, parent_section_of, section_ancestors, UrlError};

verus! {

broadcast use vstd::string::group_string_axioms;

/// Whether a name is hidden: it starts with `.`.
pub open spec fn hidden_name(n: Seq<char>) -> bool {
    n.len() > 0 && n[0] == '.'
}

/// Whether the content file at `rel` (relative to the content directory)
/// is a page: a Typst source other than the collection config
/// `config.typ`, a section's `_index.typ` or a partial, with no hidden
/// directory or name on its way.
pub open spec fn is_page_source_path(rel: Seq<char>) -> bool {
    &&& is_typst_path(rel)
    &&& components(rel) != seq!["config.typ"@]
    &&& file_name_of(rel) != Some("_index.typ"@)
    &&& !is_partial_path(rel)
    &&& forall|i: int| 0 <= i < components(rel).len() ==> !hidden_name(#[trigger] components(rel)[i])
}

/// Whether the content file at `rel` is a page source.
pub fn is_page_source(rel: &str) -> (r: bool)
    ensures
        r == is_page_source_path(rel@),
{
    if !is_typst_file(rel) || is_content_partial(rel) {
        return false;
    }
    let p = chars_of(rel);
    let cs = path_components(&p);
    let ghost cv = views(cs@);
    if cs.len() == 1 && eq_str(&cs[0], "config.typ") {
        assert(cv =~= seq!["config.typ"@]);
        return false;
    }
    proof {
        if cv == seq!["config.typ"@] {
            assert(cv[0] == cs@[0]@);
        }
    }
    match file_name(&p) {
        Some(n) => {
            if eq_str(&n, "_index.typ") {
                return false;
            }
        },
        None => {},
    }
    let mut i: usize = 0;
    while i < cs.len()
        invariant
            i <= cs.len(),
            cv == views(cs@),
            cv == components(p@),
            p@ == rel@,
            forall|j: int| 0 <= j < i ==> !hidden_name(#[trigger] cv[j]),
        decreases cs.len() - i,
    {
        assert(cv[i as int] == cs@[i as int]@);
        if cs[i].len() > 0 && cs[i][0] == '.' {
            assert(hidden_name(components(rel@)[i as int]));
            return false;
        }
        i += 1;
    }
    true
}

/// Why a page source is left out of a build.
#[derive(Debug, Clone, Copy, PartialEq, Eq, Structural)]
pub enum PageSkip {
    /// A draft, and drafts are not built.
    Draft,
    /// Dated after today, and future pages are not built.
    Future,
    /// Expired before today, and expired pages are not built.
    Expired,
}

/// What discovery makes of a page source.
#[derive(Debug)]
pub enum DiscoveredPage {
    /// The page record.
    Built(Page),
    /// The source is left out, and why.
    Skipped(PageSkip),
}

/// Whether a page's language is missing: absent or blank.
pub open spec fn lang_missing(lang: Option<String>) -> bool {
    match lang {
        Some(l) => trim(l@).len() == 0,
        None => true,
    }
}

/// Whether a page dated `date` lies after day `today`.
pub open spec fn future_of(date: Option<String>, today: Seq<char>) -> bool {
    page_day_of(opt_text(date)) matches Some(p) && text_lt(today, p)
}

/// Whether a page expiring on `date` has expired before day `today`.
pub open spec fn expired_of(date: Option<String>, today: Seq<char>) -> bool {
    page_day_of(opt_text(date)) matches Some(p) && text_lt(p, today)
}

/// Why a page with metadata `meta` is left out of a build, if it is:
/// drafts unless drafts are built, then future pages unless the site
/// builds them, then expired pages unless the site builds them.
pub open spec fn skip_of(meta: FrontMatter, cfg: Config, drafts: bool, today: Seq<char>) -> Option<
    PageSkip,
> {
    if meta.draft && !drafts {
        Some(PageSkip::Draft)
    } else if !cfg.build_future && future_of(meta.date, today) {
        Some(PageSkip::Future)
    } else if !cfg.build_expired && expired_of(meta.expires, today) {
        Some(PageSkip::Expired)
    } else {
        None
    }
}

/// The section of a page: the one its metadata names, else the one its
/// path lies in.
pub open spec fn page_section_of(meta: FrontMatter, rel: Seq<char>) -> Seq<char> {
    match meta.section {
        Some(s) => s@,
        None => section_of(rel),
    }
}

/// Where a page with URL `url` writes the file `name`: under `out_root`,
/// in the URL's directory.
pub open spec fn output_file_of(out_root: Seq<char>, url: Seq<char>, name: Seq<char>) -> Seq<char> {
    join_path_of(join_path_of(out_root, strip_start_char(url, '/')), name)
}

/// The dates a build reads of a page are whole characters where it cuts
/// them: those it compares with today, and the date a permalink pattern
/// reads.
pub open spec fn page_dates_readable(meta: FrontMatter, cfg: Config, drafts: bool, today: Seq<
    char,
>) -> bool {
    let active = !(meta.draft && !drafts);
    let dated = active && !(!cfg.build_future && future_of(meta.date, today));
    let current = dated && !(!cfg.build_expired && expired_of(meta.expires, today));
    &&& active && !cfg.build_future && meta.date is Some ==> date_slice_ok(meta.date->0@)
    &&& dated && !cfg.build_expired && meta.expires is Some ==> date_slice_ok(meta.expires->0@)
    &&& current && (meta.permalink is Some || cfg.permalink is Some) && meta.date is Some
        ==> date_slice_ok(meta.date->0@)
}

/// The page record for the source at `source`, found at `rel` under the
/// content directory, whose metadata `meta` and body `body` have been
/// read: left out as a draft, future or expired page, or built with its
/// address, output files, template and section; a blank language becomes
/// the site's. `today` is the current day as `YYYY-MM-DD`.
pub fn build_page(
    cfg: &Config,
    source: &str,
    rel: &str,
    out_root: &str,
    meta: FrontMatter,
    body: String,
    drafts: bool,
    today: &str,
) -> (r: Result<DiscoveredPage, UrlError>)
    requires
        page_dates_readable(meta, *cfg, drafts, today@),
    ensures
        match r {
            Ok(DiscoveredPage::Skipped(k)) => skip_of(meta, *cfg, drafts, today@) == Some(k),
            Ok(DiscoveredPage::Built(p)) => {
                &&& skip_of(meta, *cfg, drafts, today@) is None
                &&& address_of(
                    opt_seq(cfg.permalink),
                    rel@,
                    page_section_of(meta, rel@),
                    opt_seq(meta.slug),
                    opt_seq(meta.permalink),
                    opt_seq(meta.date),
                ) == Ok::<(Seq<char>, Seq<char>, Seq<char>, Seq<char>), UrlError>(
                    (p.url@, p.slug@, p.path@, p.file_path@),
                )
                &&& p.canonical_url@ == p.url@
                &&& p.source@ == source@
                &&& p.rel@ == rel@
                &&& p.body == body
                &&& p.processed_body@.len() == 0
                &&& p.meta == (FrontMatter { lang: p.meta.lang, ..meta })
                &&& (if lang_missing(meta.lang) {
                    p.meta.lang matches Some(l) && l@ == cfg.lang@
                } else {
                    p.meta.lang == meta.lang
                })
                &&& p.title@ == match meta.title {
                    Some(t) => t@,
                    None => default_title_of(source@),
                }
                &&& p.section@ == page_section_of(meta, rel@)
                &&& p.output_html@ == output_file_of(out_root@, p.url@, "index.html"@)
                &&& p.output_pdf@ == output_file_of(out_root@, p.url@, "index.pdf"@)
                &&& p.template@ == match meta.template {
                    Some(t) => t@,
                    None => cfg.default_template@,
                }
                &&& opt_text(p.parent_section) == parent_section_of(p.section@)
                &&& string_views(p.ancestors@) == ancestors_of(p.section@)
                &&& p.toc@.len() == 0
                &&& p.hash@.len() == 0
                &&& p.prev_title is None && p.prev_url is None
                &&& p.next_title is None && p.next_url is None
            },
            Err(e) => skip_of(meta, *cfg, drafts, today@) is None && address_of(
                opt_seq(cfg.permalink),
                rel@,
                page_section_of(meta, rel@),
                opt_seq(meta.slug),
                opt_seq(meta.permalink),
                opt_seq(meta.date),
            ) == Err::<(Seq<char>, Seq<char>, Seq<char>, Seq<char>), UrlError>(e),
        },
{
    let ghost meta0 = meta;
    let mut meta = meta;
    let missing = match &meta.lang {
        Some(l) => trim_vec(&chars_of(l.as_str())).len() == 0,
        None => true,
    };
    if missing {
        meta.lang = Some(String::from_str(cfg.lang.as_str()));
    }
    if meta.draft && !drafts {
        return Ok(DiscoveredPage::Skipped(PageSkip::Draft));
    }
    if !cfg.build_future && is_future_date(&meta.date, today) {
        return Ok(DiscoveredPage::Skipped(PageSkip::Future));
    }
    if !cfg.build_expired && is_expired_date(&meta.expires, today) {
        return Ok(DiscoveredPage::Skipped(PageSkip::Expired));
    }
    let title = match &meta.title {
        Some(t) => String::from_str(t.as_str()),
        None => default_title(source),
    };
    let section = match &meta.section {
        Some(s) => String::from_str(s.as_str()),
        None => infer_section(rel),
    };
    let address = match page_address(cfg, rel, section.as_str(), &meta) {
        Ok(a) => a,
        Err(e) => {
            return Err(e);
        },
    };
    let url_dir = string_of(&trim_start_char_vec(&chars_of(address.url.as_str()), '/'));
    let dir = join_path(out_root, url_dir.as_str());
    let output_html = join_path(dir.as_str(), "index.html");
    let output_pdf = join_path(dir.as_str(), "index.pdf");
    let template = match &meta.template {
        Some(t) => String::from_str(t.as_str()),
        None => String::from_str(cfg.default_template.as_str()),
    };
    let parent_section = parent_section_name(section.as_str());
    let ancestors = section_ancestors(section.as_str());
    let page = Page {
        source: String::from_str(source),
        rel: String::from_str(rel),
        body,
        processed_body: String::new(),
        meta,
        title,
        url: address.url,
        canonical_url: address.canonical_url,
        slug: address.slug,
        path: address.path,
        file_path: address.file_path,
        output_html,
        output_pdf,
        template,
        section,
        parent_section,
        ancestors,
        toc: Vec::new(),
        hash: String::new(),
        prev_title: None,
        prev_url: None,
        next_title: None,
        next_url: None,
    };
    assert(page.meta == (FrontMatter { lang: page.meta.lang, ..meta0 }));
    Ok(DiscoveredPage::Built(page))
}

} // verus!
