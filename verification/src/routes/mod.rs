//! Routes: which template is rendered under which path.

pub mod convert;
pub mod path;

pub use self::path::{Fragment, RoutePath};

use vstd::prelude::*;
use crate::error::{Error, ErrorView};
use crate::filemap::FileMap;
use crate::routes::path::{route_path_from_filename, route_path_of, FragmentView};

verus! {

/// The folder that holds the template files of the routes.
pub const ROUTES_FOLDER: &'static str = "assets/routes";

/// A route: a path and the template that is rendered for it.
#[derive(Debug, PartialEq)]
pub struct Route {
    pub path: RoutePath,
    pub template: String,
}

/// A [`Route`] as contracts speak of it.
pub struct RouteView {
    pub path: Seq<FragmentView>,
    pub template: Seq<char>,
}

impl View for Route {
    type V = RouteView;

    open spec fn view(&self) -> RouteView {
        RouteView { path: self.path@, template: self.template@ }
    }
}

/// The views of a sequence of routes.
pub open spec fn route_views(routes: Seq<Route>) -> Seq<RouteView> {
    routes.map_values(|r: Route| r@)
}

/// The view of a result that carries routes.
pub open spec fn routes_result_view(r: Result<Vec<Route>, Error>) -> Result<
    Seq<RouteView>,
    ErrorView,
> {
    match r {
        Ok(routes) => Ok(route_views(routes@)),
        Err(e) => Err(e@),
    }
}

/// The routes of the template files `paths`, in order, each with its text
/// from `files`. The first file whose name gives no route path ends the
/// work with its error.
pub open spec fn routes_from(paths: Seq<Seq<char>>, files: Map<Seq<char>, Seq<char>>) -> Result<
    Seq<RouteView>,
    ErrorView,
>
    decreases paths.len(),
{
    if paths.len() == 0 {
        Ok(Seq::empty())
    } else {
        match routes_from(paths.drop_last(), files) {
            Err(e) => Err(e),
            Ok(before) => match route_path_of(paths.last()) {
                Err(e) => Err(e),
                Ok(path) => Ok(before.push(RouteView { path, template: files[paths.last()] })),
            },
        }
    }
}

/// The routes of a site, from the template files of its routes folder: one
/// route for each file, in the order of the files.
pub fn get_routes(filemap: &FileMap) -> (r: Result<Vec<Route>, Error>)
    requires
        filemap.wf(),
    ensures
        routes_result_view(r) == routes_from(filemap.spec_paths(), filemap@),
{
    let mut routes: Vec<Route> = Vec::new();
    let count = filemap.len();
    let ghost paths = filemap.spec_paths();
    let mut i: usize = 0;
    assert(paths.take(0) =~= Seq::<Seq<char>>::empty());
    assert(route_views(routes@) =~= Seq::<RouteView>::empty());
    while i < count
        invariant
            i <= count,
            count == paths.len(),
            paths == filemap.spec_paths(),
            filemap.wf(),
            routes_from(paths.take(i as int), filemap@) == Ok::<Seq<RouteView>, ErrorView>(
                route_views(routes@),
            ),
        decreases count - i,
    {
        let ghost before = route_views(routes@);
        proof {
            assert(paths.take(i + 1).drop_last() =~= paths.take(i as int));
            assert(paths.take(i + 1).last() == paths[i as int]);
        }
        let filepath = match filemap.path_at(i) {
            Some(filepath) => filepath,
            None => {
                return Ok(routes);
            },
        };
        let template = match filemap.get(filepath.as_str()) {
            Some(template) => template.clone(),
            None => {
                return Ok(routes);
            },
        };
        match route_path_from_filename(filepath.as_str()) {
            Ok(path) => {
                let ghost added = RouteView { path: path@, template: template@ };
                routes.push(Route { path, template });
                assert(route_views(routes@) =~= before.push(added));
            },
            Err(e) => {
                proof {
                    lemma_failure_ends_routes(paths, filemap@, i + 1);
                }
                return Err(e);
            },
        }
        i += 1;
    }
    assert(paths.take(count as int) =~= paths);
    Ok(routes)
}

/// Once a file name has failed, more files do not change the outcome.
proof fn lemma_failure_ends_routes(
    paths: Seq<Seq<char>>,
    files: Map<Seq<char>, Seq<char>>,
    k: int,
)
    requires
        0 <= k <= paths.len(),
        routes_from(paths.take(k), files) is Err,
    ensures
        routes_from(paths, files) == routes_from(paths.take(k), files),
    decreases paths.len() - k,
{
    if k < paths.len() {
        assert(paths.take(k + 1).drop_last() =~= paths.take(k));
        lemma_failure_ends_routes(paths, files, k + 1);
    } else {
        assert(paths.take(k) =~= paths);
    }
}

} // verus!
