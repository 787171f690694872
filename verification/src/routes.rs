//! Site routes: every page URL, alias and generated page URL must be safe,
//! and no two may share a URL.
use vstd::prelude::*;

use crate::model::{GeneratedPage, Page};
use crate::text::{chars_of, vec_eq};
use crate::url::{alias_to_url, directory_url, url_path_check, validate_url_path, UrlError};

verus! {

broadcast use vstd::string::group_string_axioms;

/// What a route belongs to.
#[derive(Debug, Clone, PartialEq, Eq)]
pub enum RouteOwner {
    /// A content page, by its source path.
    Page { source: String },
    /// An alias of a content page.
    Alias { alias: String, source: String },
    /// A generated page, by its title.
    Generated { title: String },
}

/// Why the routes of a site are refused.
#[derive(Debug, Clone, PartialEq, Eq)]
pub enum RouteError {
    /// A page or generated page has an unsafe URL.
    InvalidUrl { owner: RouteOwner, error: UrlError },
    /// An alias is not a safe directory URL.
    InvalidAlias { owner: RouteOwner, error: UrlError },
    /// Two routes share a URL.
    Collision { url: String, previous: RouteOwner, owner: RouteOwner },
}

/// An owner as plain values: its kind (page, alias, generated) and its
/// texts.
pub open spec fn owner_view(o: RouteOwner) -> (nat, Seq<char>, Seq<char>) {
    match o {
        RouteOwner::Page { source } => (0nat, source@, Seq::<char>::empty()),
        RouteOwner::Alias { alias, source } => (1nat, alias@, source@),
        RouteOwner::Generated { title } => (2nat, title@, Seq::<char>::empty()),
    }
}

/// One route to claim: its owner and its URL, or why it has none.
pub type RouteStep = ((nat, Seq<char>, Seq<char>), Result<Seq<char>, UrlError>);

/// The URL a route URL claims once checked.
pub open spec fn checked_url(url: Seq<char>) -> Result<Seq<char>, UrlError> {
    match url_path_check(url) {
        Ok(_) => Ok(url),
        Err(e) => Err(e),
    }
}

/// The routes of one page: its URL, then each alias in order.
pub open spec fn page_steps(p: Page) -> Seq<RouteStep> {
    seq![((0nat, p.source@, Seq::<char>::empty()), checked_url(p.url@))] + p.meta.aliases@.map_values(
        |a: String| ((1nat, a@, p.source@), directory_url(a@)),
    )
}

/// The routes of the pages, in order.
pub open spec fn pages_steps(pages: Seq<Page>) -> Seq<RouteStep>
    decreases pages.len(),
{
    if pages.len() == 0 {
        Seq::<RouteStep>::empty()
    } else {
        pages_steps(pages.drop_last()) + page_steps(pages.last())
    }
}

/// The routes of the generated pages, in order.
pub open spec fn generated_steps(gens: Seq<GeneratedPage>) -> Seq<RouteStep> {
    gens.map_values(|g: GeneratedPage| ((2nat, g.title@, Seq::<char>::empty()), checked_url(g.url@)))
}

/// Every route of a site, in the order they are claimed: each page's URL
/// and aliases, then the generated pages.
pub open spec fn route_steps(pages: Seq<Page>, gens: Seq<GeneratedPage>) -> Seq<RouteStep> {
    pages_steps(pages) + generated_steps(gens)
}

/// Whether route `i` claims a URL an earlier route claimed.
pub open spec fn collides(steps: Seq<RouteStep>, i: int) -> bool {
    steps[i].1 is Ok && exists|j: int| 0 <= j < i && #[trigger] steps[j].1 == steps[i].1
}

/// Whether route `i` is refused.
pub open spec fn step_fails(steps: Seq<RouteStep>, i: int) -> bool {
    steps[i].1 is Err || collides(steps, i)
}

/// Whether route `i` is the first refused one.
pub open spec fn first_failure(steps: Seq<RouteStep>, i: int) -> bool {
    0 <= i < steps.len() && step_fails(steps, i) && forall|k: int|
        0 <= k < i ==> !#[trigger] step_fails(steps, k)
}

/// Whether an error describes the refused route `i`.
pub open spec fn describes(e: RouteError, steps: Seq<RouteStep>, i: int) -> bool {
    match e {
        RouteError::InvalidUrl { owner, error } => owner_view(owner) == steps[i].0 && steps[i].0.0
            != 1 && steps[i].1 == Err::<Seq<char>, UrlError>(error),
        RouteError::InvalidAlias { owner, error } => owner_view(owner) == steps[i].0 && steps[i].0.0
            == 1 && steps[i].1 == Err::<Seq<char>, UrlError>(error),
        RouteError::Collision { url, previous, owner } => owner_view(owner) == steps[i].0
            && steps[i].1 == Ok::<Seq<char>, UrlError>(url@) && exists|j: int|
            0 <= j < i && steps[j].1 == Ok::<Seq<char>, UrlError>(url@) && owner_view(previous)
                == #[trigger] steps[j].0,
    }
}

/// A route as plain values.
pub open spec fn step_view(s: (RouteOwner, Result<String, UrlError>)) -> RouteStep {
    (
        owner_view(s.0),
        match s.1 {
            Ok(u) => Ok(u@),
            Err(e) => Err(e),
        },
    )
}

/// Routes as plain values.
pub open spec fn steps_view(v: Seq<(RouteOwner, Result<String, UrlError>)>) -> Seq<RouteStep> {
    v.map_values(|s: (RouteOwner, Result<String, UrlError>)| step_view(s))
}

fn checked_page_url(url: &String) -> (r: Result<String, UrlError>)
    ensures
        match r {
            Ok(u) => checked_url(url@) == Ok::<Seq<char>, UrlError>(u@),
            Err(e) => checked_url(url@) == Err::<Seq<char>, UrlError>(e),
        },
{
    match validate_url_path(url.as_str()) {
        Ok(_) => Ok(url.clone()),
        Err(e) => Err(e),
    }
}

fn push_step(out: &mut Vec<(RouteOwner, Result<String, UrlError>)>, owner: RouteOwner, c: Result<String, UrlError>)
    ensures
        steps_view(final(out)@) == steps_view(old(out)@).push(step_view((owner, c))),
{
    let ghost before = steps_view(out@);
    out.push((owner, c));
    assert(steps_view(out@) =~= before.push(step_view((owner, c))));
}

/// Every route of a site, in the order they are claimed.
pub fn collect_routes(pages: &Vec<Page>, generated: &Vec<GeneratedPage>) -> (r: Vec<(RouteOwner, Result<String, UrlError>)>)
    ensures
        steps_view(r@) == route_steps(pages@, generated@),
{
    let mut out: Vec<(RouteOwner, Result<String, UrlError>)> = Vec::new();
    let mut i: usize = 0;
    assert(steps_view(out@) =~= pages_steps(pages@.take(0)));
    while i < pages.len()
        invariant
            i <= pages.len(),
            steps_view(out@) == pages_steps(pages@.take(i as int)),
        decreases pages.len() - i,
    {
        let p = &pages[i];
        let ghost start = steps_view(out@);
        let ghost ps = page_steps(*p);
        push_step(&mut out, RouteOwner::Page { source: p.source.clone() }, checked_page_url(&p.url));
        assert(steps_view(out@) == start + ps.take(1)) by {
            assert(ps.take(1) =~= seq![ps[0]]);
        }
        let mut a: usize = 0;
        while a < p.meta.aliases.len()
            invariant
                a <= p.meta.aliases.len(),
                p == &pages@[i as int],
                ps == page_steps(*p),
                ps.len() == 1 + p.meta.aliases.len(),
                steps_view(out@) == start + ps.take(1 + a),
            decreases p.meta.aliases.len() - a,
        {
            let alias = &p.meta.aliases[a];
            let c = alias_to_url(alias.as_str());
            let ghost before = steps_view(out@);
            push_step(
                &mut out,
                RouteOwner::Alias { alias: alias.clone(), source: p.source.clone() },
                c,
            );
            assert(ps[1 + a] == ((1nat, alias@, p.source@), directory_url(alias@)));
            assert(ps.take(1 + a + 1) =~= ps.take(1 + a).push(ps[1 + a]));
            a += 1;
        }
        assert(ps.take(ps.len() as int) =~= ps);
        assert(pages@.take(i + 1).drop_last() =~= pages@.take(i as int));
        assert(pages@.take(i + 1).last() == pages@[i as int]);
        i += 1;
    }
    assert(pages@.take(pages.len() as int) =~= pages@);
    let ghost base = steps_view(out@);
    let mut g: usize = 0;
    while g < generated.len()
        invariant
            g <= generated.len(),
            base == pages_steps(pages@),
            steps_view(out@) == base + generated_steps(generated@).take(g as int),
        decreases generated.len() - g,
    {
        let gen = &generated[g];
        push_step(
            &mut out,
            RouteOwner::Generated { title: gen.title.clone() },
            checked_page_url(&gen.url),
        );
        assert(generated_steps(generated@).take(g + 1) =~= generated_steps(generated@).take(g as int).push(
            generated_steps(generated@)[g as int],
        ));
        g += 1;
    }
    assert(generated_steps(generated@).take(generated.len() as int) =~= generated_steps(generated@));
    out
}

fn copy_owner(o: &RouteOwner) -> (r: RouteOwner)
    ensures
        owner_view(r) == owner_view(*o),
{
    match o {
        RouteOwner::Page { source } => RouteOwner::Page { source: source.clone() },
        RouteOwner::Alias { alias, source } => RouteOwner::Alias {
            alias: alias.clone(),
            source: source.clone(),
        },
        RouteOwner::Generated { title } => RouteOwner::Generated { title: title.clone() },
    }
}

fn same_url(a: &Result<String, UrlError>, b: &String) -> (r: bool)
    ensures
        r == (match a {
            Ok(u) => u@ == b@,
            Err(_) => false,
        }),
{
    match a {
        Ok(u) => {
            let x = chars_of(u.as_str());
            let y = chars_of(b.as_str());
            vec_eq(&x, &y)
        },
        Err(_) => false,
    }
}

/// Checks the routes of a site: each page URL, alias and generated page
/// URL must be safe, and no URL may be claimed twice. The error describes
/// the first route refused.
pub fn validate_routes(pages: &Vec<Page>, generated: &Vec<GeneratedPage>) -> (r: Result<(), RouteError>)
    ensures
        r is Ok <==> forall|i: int|
            0 <= i < route_steps(pages@, generated@).len() ==> !#[trigger] step_fails(
                route_steps(pages@, generated@),
                i,
            ),
        r matches Err(e) ==> exists|i: int|
            first_failure(route_steps(pages@, generated@), i) && #[trigger] describes(
                e,
                route_steps(pages@, generated@),
                i,
            ),
{
    let steps = collect_routes(pages, generated);
    let ghost sv = steps_view(steps@);
    let mut k: usize = 0;
    while k < steps.len()
        invariant
            k <= steps.len(),
            sv == steps_view(steps@),
            sv == route_steps(pages@, generated@),
            forall|m: int| 0 <= m < k ==> !#[trigger] step_fails(sv, m),
        decreases steps.len() - k,
    {
        assert(sv[k as int] == step_view(steps@[k as int]));
        match &steps[k].1 {
            Err(e) => {
                let owner = copy_owner(&steps[k].0);
                assert(owner_view(owner) == sv[k as int].0);
                assert(first_failure(sv, k as int));
                if matches!(steps[k].0, RouteOwner::Alias { .. }) {
                    let err = RouteError::InvalidAlias { owner, error: *e };
                    assert(describes(err, sv, k as int));
                    return Err(err);
                } else {
                    let err = RouteError::InvalidUrl { owner, error: *e };
                    assert(describes(err, sv, k as int));
                    return Err(err);
                }
            },
            Ok(u) => {
                let mut j: usize = 0;
                while j < k
                    invariant
                        j <= k < steps.len(),
                        sv == steps_view(steps@),
                        sv.len() == steps.len(),
                        sv == route_steps(pages@, generated@),
                        forall|m: int| 0 <= m < k ==> !#[trigger] step_fails(sv, m),
                        steps@[k as int].1 matches Ok(x) && x@ == u@,
                        forall|m: int| 0 <= m < j ==> sv[m].1 != Ok::<Seq<char>, UrlError>(u@),
                    decreases k - j,
                {
                    assert(sv[j as int] == step_view(steps@[j as int]));
                    if same_url(&steps[j].1, u) {
                        let previous = copy_owner(&steps[j].0);
                        let owner = copy_owner(&steps[k].0);
                        let url = u.clone();
                        assert(owner_view(previous) == sv[j as int].0);
                        assert(owner_view(owner) == sv[k as int].0);
                        let err = RouteError::Collision { url, previous, owner };
                        assert(sv[k as int].1 == Ok::<Seq<char>, UrlError>(u@));
                        assert(sv[j as int].1 == Ok::<Seq<char>, UrlError>(u@));
                        assert(collides(sv, k as int));
                        assert(first_failure(sv, k as int));
                        assert(describes(err, sv, k as int));
                        return Err(err);
                    }
                    j += 1;
                }
                assert(!collides(sv, k as int)) by {
                    if collides(sv, k as int) {
                        let jj = choose|jj: int| 0 <= jj < k && #[trigger] sv[jj].1 == sv[k as int].1;
                        assert(sv[jj].1 != Ok::<Seq<char>, UrlError>(u@));
                    }
                }
            },
        }
        k += 1;
    }
    Ok(())
}

} // verus!
