//! The pages of the site: the home and not-found pages, each module's page
//! and its page of mercenaries, and each faction's page under its alias
//! where it has one, with a redirect from its id.
use vstd::prelude::*;

use crate::chars::{chars_of, eq_chars, string_of};
use crate::site::{append_str, Module, SiteFaction};

verus! {

/// A page of the site.
#[derive(Debug)]
pub enum SiteRoute {
    Home,
    NotFound,
    Module { module: String },
    Mercenaries { module: String },
    Faction { module: String, faction: String },
}

/// A page of the site, with its names as text.
pub enum RouteSpec {
    Home,
    NotFound,
    Module(Seq<char>),
    Mercenaries(Seq<char>),
    Faction(Seq<char>, Seq<char>),
}

impl View for SiteRoute {
    type V = RouteSpec;

    open spec fn view(&self) -> RouteSpec {
        match self {
            SiteRoute::Home => RouteSpec::Home,
            SiteRoute::NotFound => RouteSpec::NotFound,
            SiteRoute::Module { module } => RouteSpec::Module(module@),
            SiteRoute::Mercenaries { module } => RouteSpec::Mercenaries(module@),
            SiteRoute::Faction { module, faction } => RouteSpec::Faction(module@, faction@),
        }
    }
}

/// A page that the site writes: which page it is, the file it is written
/// to, and where it sends the reader on, for a redirect.
#[derive(Debug)]
pub struct RenderRoute {
    pub route: SiteRoute,
    pub path: String,
    pub redirect: Option<String>,
}

pub struct RenderRouteView {
    pub route: RouteSpec,
    pub path: Seq<char>,
    pub redirect: Option<Seq<char>>,
}

impl View for RenderRoute {
    type V = RenderRouteView;

    open spec fn view(&self) -> RenderRouteView {
        RenderRouteView {
            route: self.route@,
            path: self.path@,
            redirect: match self.redirect {
                Some(s) => Some(s@),
                None => None,
            },
        }
    }
}

/// The URL of a page: `/`, `/404`, `/{module}`, `/{module}/mercenaries`
/// and `/{module}/{faction}`.
pub open spec fn route_url(r: RouteSpec) -> Seq<char> {
    match r {
        RouteSpec::Home => "/"@,
        RouteSpec::NotFound => "/404"@,
        RouteSpec::Module(m) => "/"@ + m,
        RouteSpec::Mercenaries(m) => "/"@ + m + "/mercenaries"@,
        RouteSpec::Faction(m, f) => "/"@ + m + "/"@ + f,
    }
}

/// The file a page is written to: `index.html` and `404.html` for the home
/// and not-found pages, else `index.html` under the page's URL.
pub open spec fn route_path(r: RouteSpec) -> Seq<char> {
    match r {
        RouteSpec::Home => "index.html"@,
        RouteSpec::NotFound => "404.html"@,
        RouteSpec::Module(m) => m + "/index.html"@,
        RouteSpec::Mercenaries(m) => m + "/mercenaries/index.html"@,
        RouteSpec::Faction(m, f) => m + "/"@ + f + "/index.html"@,
    }
}

/// A page written where its URL says.
pub open spec fn page(r: RouteSpec) -> RenderRouteView {
    RenderRouteView { route: r, path: route_path(r), redirect: None }
}

/// The name a faction's page goes by: its alias, else its id.
pub open spec fn id_or_alias(f: SiteFaction) -> Seq<char> {
    match f.alias {
        Some(a) => a@,
        None => f.id@,
    }
}

/// The pages of a module's factions, in order: each under its alias where
/// it has one, after a redirect from its id where the two differ.
pub open spec fn faction_routes(m: Seq<char>, fs: Seq<(String, SiteFaction)>) -> Seq<RenderRouteView>
    decreases fs.len(),
{
    if fs.len() == 0 {
        seq![]
    } else {
        let f = fs.last().1;
        let to = RouteSpec::Faction(m, id_or_alias(f));
        let before = faction_routes(m, fs.drop_last());
        let before = if id_or_alias(f) != f.id@ {
            let from = RouteSpec::Faction(m, f.id@);
            before.push(
                RenderRouteView { route: from, path: route_path(from), redirect: Some(route_url(to)) },
            )
        } else {
            before
        };
        before.push(page(to))
    }
}

/// The pages of a module: its own, its mercenaries', then its factions'.
pub open spec fn module_routes(m: Module) -> Seq<RenderRouteView> {
    seq![page(RouteSpec::Module(m.id@)), page(RouteSpec::Mercenaries(m.id@))] + faction_routes(
        m.id@,
        m.factions@,
    )
}

/// The pages of the site: the home and not-found pages, then each
/// module's, in order.
pub open spec fn routes_of(ms: Seq<Module>) -> Seq<RenderRouteView>
    decreases ms.len(),
{
    if ms.len() == 0 {
        seq![page(RouteSpec::Home), page(RouteSpec::NotFound)]
    } else {
        routes_of(ms.drop_last()) + module_routes(ms.last())
    }
}

/// The views of the pages.
pub open spec fn route_views(rs: Seq<RenderRoute>) -> Seq<RenderRouteView> {
    rs.map_values(|x: RenderRoute| x@)
}

/// A copy of a `String`.
fn copy(s: &String) -> (r: String)
    ensures
        r@ == s@,
{
    s.clone()
}

/// The text of the parts one after another.
fn joined(a: &str, b: &str, c: &str, d: &str) -> (r: String)
    ensures
        r@ == a@ + b@ + c@ + d@,
{
    let mut v = chars_of(a);
    append_str(&mut v, b);
    append_str(&mut v, c);
    append_str(&mut v, d);
    string_of(&v)
}

/// A page of a module written where its URL says.
fn module_page(module: &String, merc: bool) -> (r: RenderRoute)
    ensures
        r@ == page(
            if merc {
                RouteSpec::Mercenaries(module@)
            } else {
                RouteSpec::Module(module@)
            },
        ),
{
    proof {
        reveal_strlit("");
    }
    if merc {
        let path = joined(module.as_str(), "/mercenaries/index.html", "", "");
        assert(path@ =~= module@ + "/mercenaries/index.html"@);
        RenderRoute { route: SiteRoute::Mercenaries { module: copy(module) }, path, redirect: None }
    } else {
        let path = joined(module.as_str(), "/index.html", "", "");
        assert(path@ =~= module@ + "/index.html"@);
        RenderRoute { route: SiteRoute::Module { module: copy(module) }, path, redirect: None }
    }
}

/// The page of a faction of a module under the name `name`, or a redirect
/// from it to the page under `to`.
fn faction_page(module: &String, name: &String, to: Option<&String>) -> (r: RenderRoute)
    ensures
        r@ == (match to {
            None => page(RouteSpec::Faction(module@, name@)),
            Some(t) => RenderRouteView {
                route: RouteSpec::Faction(module@, name@),
                path: route_path(RouteSpec::Faction(module@, name@)),
                redirect: Some(route_url(RouteSpec::Faction(module@, t@))),
            },
        }),
{
    let mut v = chars_of(module.as_str());
    append_str(&mut v, "/");
    append_str(&mut v, name.as_str());
    append_str(&mut v, "/index.html");
    let path = string_of(&v);
    let route = SiteRoute::Faction { module: copy(module), faction: copy(name) };
    match to {
        None => RenderRoute { route, path, redirect: None },
        Some(t) => {
            let url = joined("/", module.as_str(), "/", t.as_str());
            RenderRoute { route, path, redirect: Some(url) }
        },
    }
}

/// The pages of the site, in order: the home and not-found pages, then for
/// each module its page, its mercenaries' page, and its factions' pages,
/// each under the faction's alias where it has one, after a redirect from
/// the faction's id where the two differ.
pub fn collect_routes(modules: &Vec<Module>) -> (r: Vec<RenderRoute>)
    ensures
        route_views(r@) == routes_of(modules@),
{
    let mut out: Vec<RenderRoute> = Vec::new();
    out.push(RenderRoute { route: SiteRoute::Home, path: string_of(&chars_of("index.html")), redirect: None });
    out.push(RenderRoute { route: SiteRoute::NotFound, path: string_of(&chars_of("404.html")), redirect: None });
    assert(route_views(out@) =~= routes_of(modules@.take(0)));
    let mut i: usize = 0;
    while i < modules.len()
        invariant
            i <= modules.len(),
            route_views(out@) == routes_of(modules@.take(i as int)),
        decreases modules.len() - i,
    {
        let m = &modules[i];
        let ghost start = route_views(out@);
        assert(modules@.take(i + 1).drop_last() =~= modules@.take(i as int));
        assert(modules@.take(i + 1).last() == *m);
        let a = module_page(&m.id, false);
        out.push(a);
        let b = module_page(&m.id, true);
        out.push(b);
        assert(route_views(out@) =~= start + seq![
            page(RouteSpec::Module(m.id@)),
            page(RouteSpec::Mercenaries(m.id@)),
        ]);
        let fs = &m.factions;
        let mut j: usize = 0;
        assert(fs@.take(0) =~= Seq::<(String, SiteFaction)>::empty());
        while j < fs.len()
            invariant
                j <= fs.len(),
                fs == &m.factions,
                route_views(out@) == start + seq![
                    page(RouteSpec::Module(m.id@)),
                    page(RouteSpec::Mercenaries(m.id@)),
                ] + faction_routes(m.id@, fs@.take(j as int)),
            decreases fs.len() - j,
        {
            let f = &fs[j].1;
            assert(fs@.take(j + 1).drop_last() =~= fs@.take(j as int));
            assert(fs@.take(j + 1).last().1 == *f);
            let ghost before = route_views(out@);
            let name = match &f.alias {
                Some(a) => a,
                None => &f.id,
            };
            assert(name@ == id_or_alias(*f));
            let nv = chars_of(name.as_str());
            let iv = chars_of(f.id.as_str());
            let ghost pre = start + seq![
                page(RouteSpec::Module(m.id@)),
                page(RouteSpec::Mercenaries(m.id@)),
            ];
            let ghost fr = faction_routes(m.id@, fs@.take(j as int));
            let ghost to = RouteSpec::Faction(m.id@, id_or_alias(*f));
            let ghost from = RouteSpec::Faction(m.id@, f.id@);
            let ghost red_view = RenderRouteView {
                route: from,
                path: route_path(from),
                redirect: Some(route_url(to)),
            };
            let differ = !eq_chars(&nv, &iv);
            let ghost mid = if differ { fr.push(red_view) } else { fr };
            assert(faction_routes(m.id@, fs@.take(j + 1)) == mid.push(page(to)));
            if differ {
                let red = faction_page(&m.id, &f.id, Some(name));
                assert(red@ == red_view);
                out.push(red);
                assert(route_views(out@) =~= (pre + fr).push(red_view));
            }
            assert(route_views(out@) =~= pre + mid);
            let pg = faction_page(&m.id, name, None);
            assert(pg@ == page(to));
            let ghost o1 = out@;
            out.push(pg);
            assert(out@ == o1.push(pg));
            assert(route_views(out@) =~= route_views(o1).push(pg@));
            assert(route_views(out@) =~= pre + mid.push(page(to)));
            j += 1;
        }
        assert(fs@.take(fs.len() as int) =~= fs@);
        assert(route_views(out@) =~= routes_of(modules@.take(i + 1)));
        i += 1;
    }
    assert(modules@.take(modules.len() as int) =~= modules@);
    out
}

} // verus!
