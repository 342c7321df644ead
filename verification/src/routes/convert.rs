//! From routes to the files that are rendered for them.
//!
//! A route with a value in its path stands for one file per key of that
//! value; with two values, for one file per pair of keys; and so on. The
//! values are looked up in the data given to the site, a json object.

use vstd::prelude::*;
use vstd::string::StringExecFns;
use crate::error::{Error, ErrorView};
use crate::routes::path::{Fragment, FragmentView, RoutePath};
use crate::routes::{route_views, Route, RouteView};
use crate::text::{chars_of, views};

verus! {

/// A json object: string keys and json values.
pub type Object = serde_json::Map<String, serde_json::Value>;

/// The map type of json objects.
#[verifier::external_type_specification]
#[verifier::external_body]
#[verifier::reject_recursive_types(K)]
#[verifier::reject_recursive_types(V)]
pub struct ExJsonMap<K, V>(serde_json::Map<K, V>);

/// A json value.
#[verifier::external_type_specification]
#[verifier::external_body]
pub struct ExJsonValue(serde_json::Value);

/// What a json object holds: its values by their keys.
pub uninterp spec fn object_entries(object: Object) -> Map<Seq<char>, serde_json::Value>;

/// The keys of a json object, in the order in which the object gives them
/// out.
pub uninterp spec fn object_keys(object: Object) -> Seq<Seq<char>>;

/// The object that a json value is, if it is one.
pub uninterp spec fn value_object(value: serde_json::Value) -> Option<Object>;

/// What an object without keys holds.
pub open spec fn no_entries() -> Map<Seq<char>, serde_json::Value> {
    Map::empty()
}

/// `serde_json::Map::new`: an object that holds nothing.
#[verifier::external_body]
pub(crate) fn object_new() -> (empty: Object)
    ensures
        object_entries(empty) == no_entries(),
{
    serde_json::Map::new()
}

/// `serde_json::Map::get`: the value stored under `key`, if there is one.
#[verifier::external_body]
fn object_get<'a>(object: &'a Object, key: &str) -> (found: Option<&'a serde_json::Value>)
    ensures
        match found {
            Some(value) => object_entries(*object).contains_key(key@) && object_entries(
                *object,
            )[key@] == *value,
            None => !object_entries(*object).contains_key(key@),
        },
{
    object.get(key)
}

/// `serde_json::Map::insert`: stores `value` under `key`, in place of what
/// was stored there. Nothing is claimed of where the key then stands among
/// the keys.
#[verifier::external_body]
fn object_insert(object: &mut Object, key: String, value: serde_json::Value)
    ensures
        object_entries(*final(object)) == object_entries(*old(object)).insert(key@, value),
{
    object.insert(key, value);
}

/// `serde_json::Map::keys`, each key copied: the keys of the object in the
/// order in which it gives them out, each once.
#[verifier::external_body]
fn object_key_list(object: &Object) -> (keys: Vec<String>)
    ensures
        views(keys@) == object_keys(*object),
        views(keys@).no_duplicates(),
        views(keys@).to_set() == object_entries(*object).dom(),
{
    object.keys().cloned().collect()
}

/// `Clone::clone` of a json object: an equal object.
pub assume_specification[ <serde_json::Map<String, serde_json::Value> as Clone>::clone ](
    object: &serde_json::Map<String, serde_json::Value>,
) -> (copy: serde_json::Map<String, serde_json::Value>)
    ensures
        copy == *object,
;

/// `Clone::clone` of a json value: an equal value.
#[verifier::external_body]
fn value_clone(value: &serde_json::Value) -> (copy: serde_json::Value)
    ensures
        copy == *value,
{
    value.clone()
}

/// `serde_json::Value::as_object`: the object that the value is, or nothing
/// where it is a value of another kind.
#[verifier::external_body]
fn value_as_object<'a>(value: &'a serde_json::Value) -> (found: Option<&'a Object>)
    ensures
        match found {
            Some(object) => value_object(*value) == Some(*object),
            None => value_object(*value) is None,
        },
{
    value.as_object()
}

/// One file that is rendered for a route: where it is written, and the
/// values that its template sees.
#[derive(Clone, Debug, PartialEq)]
pub struct PathToRender {
    pub filepath: String,
    pub values: Object,
}

/// A [`PathToRender`] as contracts speak of it.
pub struct PathView {
    pub filepath: Seq<char>,
    pub values: Map<Seq<char>, serde_json::Value>,
}

impl View for PathToRender {
    type V = PathView;

    open spec fn view(&self) -> PathView {
        PathView { filepath: self.filepath@, values: object_entries(self.values) }
    }
}

/// The views of a sequence of paths.
pub open spec fn path_views(paths: Seq<PathToRender>) -> Seq<PathView> {
    paths.map_values(|p: PathToRender| p@)
}

/// A route and the files that are rendered for it.
#[derive(Debug, PartialEq)]
pub struct TemplateToRender {
    pub route: Route,
    pub paths: Vec<PathToRender>,
}

/// A [`TemplateToRender`] as contracts speak of it.
pub struct TemplateView {
    pub route: RouteView,
    pub paths: Seq<PathView>,
}

impl View for TemplateToRender {
    type V = TemplateView;

    open spec fn view(&self) -> TemplateView {
        TemplateView { route: self.route@, paths: path_views(self.paths@) }
    }
}

/// The views of a sequence of templates.
pub open spec fn template_views(templates: Seq<TemplateToRender>) -> Seq<TemplateView> {
    templates.map_values(|t: TemplateToRender| t@)
}

/// Said of a value that a route names and the data do not hold.
pub open spec fn value_missing(name: Seq<char>) -> Seq<char> {
    "Value is not given with name '"@ + name + "'"@
}

/// Said of a value that a route names and that is no object.
pub open spec fn value_not_object(name: Seq<char>) -> Seq<char> {
    "Value given is not an object map, named '"@ + name + "'"@
}

/// The path that starts every route: no file path yet, and no values.
pub open spec fn first_path() -> PathView {
    PathView { filepath: Seq::empty(), values: Map::empty() }
}

/// `path` with one more name.
pub open spec fn with_name(path: PathView, name: Seq<char>) -> PathView {
    PathView { filepath: path.filepath + "/"@ + name, values: path.values }
}

/// `path` with the key `key` of the value `name` as its next name, and with
/// what is stored under `key` as the value of `name`.
pub open spec fn with_key(
    path: PathView,
    name: Seq<char>,
    key: Seq<char>,
    entries: Map<Seq<char>, serde_json::Value>,
) -> PathView {
    PathView {
        filepath: path.filepath + "/"@ + key,
        values: path.values.insert(name, entries[key]),
    }
}

/// The paths that one path becomes at a value: one for each key, in the
/// order of the keys.
pub open spec fn branches(
    path: PathView,
    name: Seq<char>,
    keys: Seq<Seq<char>>,
    entries: Map<Seq<char>, serde_json::Value>,
) -> Seq<PathView> {
    keys.map_values(|key: Seq<char>| with_key(path, name, key, entries))
}

/// The paths that `paths` become at a value: the branches of the first
/// path, then those of the second, and so on.
pub open spec fn expanded(
    paths: Seq<PathView>,
    name: Seq<char>,
    keys: Seq<Seq<char>>,
    entries: Map<Seq<char>, serde_json::Value>,
) -> Seq<PathView>
    decreases paths.len(),
{
    if paths.len() == 0 {
        Seq::empty()
    } else {
        expanded(paths.drop_last(), name, keys, entries) + branches(
            paths.last(),
            name,
            keys,
            entries,
        )
    }
}

/// The paths that `paths` become at one fragment. A literal is added to
/// every path. A value has to be an object of the data; every path then
/// branches into one path for each of its keys.
pub open spec fn with_fragment(paths: Seq<PathView>, fragment: FragmentView, global: Object)
    -> Result<Seq<PathView>, ErrorView> {
    match fragment {
        FragmentView::Literal(literal) => Ok(
            paths.map_values(|p: PathView| with_name(p, literal)),
        ),
        FragmentView::Value(name) => {
            if !object_entries(global).contains_key(name) {
                Err(ErrorView::Generic(value_missing(name)))
            } else {
                match value_object(object_entries(global)[name]) {
                    None => Err(ErrorView::Generic(value_not_object(name))),
                    Some(object) => Ok(
                        expanded(paths, name, object_keys(object), object_entries(object)),
                    ),
                }
            }
        },
    }
}

/// The paths that `paths` become along the fragments of a route path. The
/// first fragment that fails ends the work with its error.
pub open spec fn with_fragments(paths: Seq<PathView>, fragments: Seq<FragmentView>, global: Object)
    -> Result<Seq<PathView>, ErrorView>
    decreases fragments.len(),
{
    if fragments.len() == 0 {
        Ok(paths)
    } else {
        match with_fragments(paths, fragments.drop_last(), global) {
            Err(e) => Err(e),
            Ok(before) => with_fragment(before, fragments.last(), global),
        }
    }
}

/// The file of a path: `index.html` in the folder that the path names.
pub open spec fn index_file(filepath: Seq<char>) -> Seq<char> {
    if filepath.len() > 0 && filepath.last() == '/' {
        filepath + "index.html"@
    } else {
        filepath + "/"@ + "index.html"@
    }
}

/// `path` with its file in place of its folder.
pub open spec fn finished(path: PathView) -> PathView {
    PathView { filepath: index_file(path.filepath), values: path.values }
}

/// The files that are rendered for a route path.
pub open spec fn paths_of(fragments: Seq<FragmentView>, global: Object) -> Result<
    Seq<PathView>,
    ErrorView,
> {
    match with_fragments(seq![first_path()], fragments, global) {
        Err(e) => Err(e),
        Ok(paths) => Ok(paths.map_values(|p: PathView| finished(p))),
    }
}

/// The routes with the files that are rendered for them, in the order of
/// the routes. The first route that fails ends the work with its error.
pub open spec fn converted(routes: Seq<RouteView>, global: Object) -> Result<
    Seq<TemplateView>,
    ErrorView,
>
    decreases routes.len(),
{
    if routes.len() == 0 {
        Ok(Seq::empty())
    } else {
        match converted(routes.drop_last(), global) {
            Err(e) => Err(e),
            Ok(before) => match paths_of(routes.last().path, global) {
                Err(e) => Err(e),
                Ok(paths) => Ok(before.push(TemplateView { route: routes.last(), paths })),
            },
        }
    }
}

impl PathToRender {
    /// The path that starts every route.
    pub fn new() -> (path: Self)
        ensures
            path@ == first_path(),
    {
        PathToRender { filepath: String::new(), values: object_new() }
    }
}

/// The message about a value that the data do not hold.
fn value_missing_message(name: &str) -> (message: String)
    ensures
        message@ == value_missing(name@),
{
    let mut message = String::from_str("Value is not given with name '");
    message.append(name);
    message.append("'");
    message
}

/// The message about a value that is no object.
fn value_not_object_message(name: &str) -> (message: String)
    ensures
        message@ == value_not_object(name@),
{
    let mut message = String::from_str("Value given is not an object map, named '");
    message.append(name);
    message.append("'");
    message
}

/// Every path with one more name.
fn add_literal(paths: &Vec<PathToRender>, literal: &str) -> (next: Vec<PathToRender>)
    ensures
        path_views(next@) == path_views(paths@).map_values(|p: PathView| with_name(p, literal@)),
{
    let mut next: Vec<PathToRender> = Vec::new();
    let mut j: usize = 0;
    let ghost wanted = path_views(paths@).map_values(|p: PathView| with_name(p, literal@));
    assert(path_views(next@) =~= wanted.take(0));
    while j < paths.len()
        invariant
            j <= paths.len(),
            wanted == path_views(paths@).map_values(|p: PathView| with_name(p, literal@)),
            path_views(next@) == wanted.take(j as int),
        decreases paths.len() - j,
    {
        let ghost before = path_views(next@);
        let mut filepath = paths[j].filepath.clone();
        filepath.append("/");
        filepath.append(literal);
        let values = paths[j].values.clone();
        next.push(PathToRender { filepath, values });
        proof {
            assert(next@.last()@ == with_name(paths@[j as int]@, literal@));
            assert(path_views(next@) =~= before.push(with_name(paths@[j as int]@, literal@)));
            assert(wanted.take(j + 1) =~= wanted.take(j as int).push(wanted[j as int]));
        }
        j += 1;
    }
    assert(wanted.take(paths@.len() as int) =~= wanted);
    next
}

/// The branches of one path at a value.
fn add_branches(
    next: &mut Vec<PathToRender>,
    path: &PathToRender,
    name: &str,
    keys: &Vec<String>,
    object: &Object,
)
    requires
        views(keys@).to_set() == object_entries(*object).dom(),
    ensures
        path_views(final(next)@) == path_views(old(next)@) + branches(
            path@,
            name@,
            views(keys@),
            object_entries(*object),
        ),
{
    let ghost base = path_views(next@);
    let ghost wanted = branches(path@, name@, views(keys@), object_entries(*object));
    let mut k: usize = 0;
    assert(path_views(next@) =~= base + wanted.take(0));
    while k < keys.len()
        invariant
            k <= keys.len(),
            views(keys@).to_set() == object_entries(*object).dom(),
            wanted == branches(path@, name@, views(keys@), object_entries(*object)),
            path_views(next@) == base + wanted.take(k as int),
        decreases keys.len() - k,
    {
        let ghost before = path_views(next@);
        proof {
            assert(views(keys@)[k as int] == keys@[k as int]@);
            assert(views(keys@).contains(keys@[k as int]@));
        }
        match object_get(object, keys[k].as_str()) {
            Some(value) => {
                let mut filepath = path.filepath.clone();
                filepath.append("/");
                filepath.append(keys[k].as_str());
                let mut values = path.values.clone();
                object_insert(&mut values, String::from_str(name), value_clone(value));
                next.push(PathToRender { filepath, values });
                proof {
                    let added = with_key(
                        path@,
                        name@,
                        keys@[k as int]@,
                        object_entries(*object),
                    );
                    assert(next@.last()@ == added);
                    assert(path_views(next@) =~= before.push(added));
                    assert(wanted.take(k + 1) =~= wanted.take(k as int).push(added));
                    assert(base + wanted.take(k + 1) =~= (base + wanted.take(k as int)).push(
                        added,
                    ));
                }
            },
            None => {
                assert(false);
            },
        }
        k += 1;
    }
    assert(wanted.take(keys@.len() as int) =~= wanted);
}

/// Every path branched at a value.
fn add_value(paths: &Vec<PathToRender>, name: &str, object: &Object) -> (next: Vec<PathToRender>)
    ensures
        path_views(next@) == expanded(
            path_views(paths@),
            name@,
            object_keys(*object),
            object_entries(*object),
        ),
{
    let keys = object_key_list(object);
    let mut next: Vec<PathToRender> = Vec::new();
    let mut j: usize = 0;
    let ghost all = path_views(paths@);
    assert(all.take(0) =~= Seq::<PathView>::empty());
    assert(path_views(next@) =~= Seq::<PathView>::empty());
    while j < paths.len()
        invariant
            j <= paths.len(),
            all == path_views(paths@),
            views(keys@) == object_keys(*object),
            views(keys@).to_set() == object_entries(*object).dom(),
            path_views(next@) == expanded(
                all.take(j as int),
                name@,
                object_keys(*object),
                object_entries(*object),
            ),
        decreases paths.len() - j,
    {
        proof {
            assert(all.take(j + 1).drop_last() =~= all.take(j as int));
            assert(all.take(j + 1).last() == paths@[j as int]@);
        }
        add_branches(&mut next, &paths[j], name, &keys, object);
        j += 1;
    }
    assert(all.take(paths@.len() as int) =~= all);
    next
}

/// The paths at one more fragment.
fn add_fragment(paths: &Vec<PathToRender>, fragment: &Fragment, global: &Object) -> (r: Result<
    Vec<PathToRender>,
    Error,
>)
    ensures
        match r {
            Ok(next) => with_fragment(path_views(paths@), fragment@, *global) == Ok::<
                Seq<PathView>,
                ErrorView,
            >(path_views(next@)),
            Err(e) => with_fragment(path_views(paths@), fragment@, *global) == Err::<
                Seq<PathView>,
                ErrorView,
            >(e@),
        },
{
    match fragment {
        Fragment::Literal(literal) => Ok(add_literal(paths, literal.as_str())),
        Fragment::Value(name) => {
            let value = match object_get(global, name.as_str()) {
                Some(value) => value,
                None => {
                    return Err(Error::Generic(value_missing_message(name.as_str())));
                },
            };
            let object = match value_as_object(value) {
                Some(object) => object,
                None => {
                    return Err(Error::Generic(value_not_object_message(name.as_str())));
                },
            };
            Ok(add_value(paths, name.as_str(), object))
        },
    }
}

/// Once a fragment has failed, more fragments do not change the outcome.
proof fn lemma_failure_ends_fragments(
    paths: Seq<PathView>,
    fragments: Seq<FragmentView>,
    global: Object,
    k: int,
)
    requires
        0 <= k <= fragments.len(),
        with_fragments(paths, fragments.take(k), global) is Err,
    ensures
        with_fragments(paths, fragments, global) == with_fragments(
            paths,
            fragments.take(k),
            global,
        ),
    decreases fragments.len() - k,
{
    if k < fragments.len() {
        assert(fragments.take(k + 1).drop_last() =~= fragments.take(k));
        lemma_failure_ends_fragments(paths, fragments, global, k + 1);
    } else {
        assert(fragments.take(k) =~= fragments);
    }
}

/// The file of every path, in place of its folder.
fn finish_paths(paths: &Vec<PathToRender>) -> (next: Vec<PathToRender>)
    ensures
        path_views(next@) == path_views(paths@).map_values(|p: PathView| finished(p)),
{
    let mut next: Vec<PathToRender> = Vec::new();
    let mut j: usize = 0;
    let ghost wanted = path_views(paths@).map_values(|p: PathView| finished(p));
    assert(path_views(next@) =~= wanted.take(0));
    while j < paths.len()
        invariant
            j <= paths.len(),
            wanted == path_views(paths@).map_values(|p: PathView| finished(p)),
            path_views(next@) == wanted.take(j as int),
        decreases paths.len() - j,
    {
        let ghost before = path_views(next@);
        let chars = chars_of(paths[j].filepath.as_str());
        let mut filepath = paths[j].filepath.clone();
        if chars.len() == 0 || chars[chars.len() - 1] != '/' {
            filepath.append("/");
        }
        filepath.append("index.html");
        let values = paths[j].values.clone();
        next.push(PathToRender { filepath, values });
        proof {
            assert(next@.last()@ == finished(paths@[j as int]@));
            assert(path_views(next@) =~= before.push(finished(paths@[j as int]@)));
            assert(wanted.take(j + 1) =~= wanted.take(j as int).push(wanted[j as int]));
        }
        j += 1;
    }
    assert(wanted.take(paths@.len() as int) =~= wanted);
    next
}

/// The files that are rendered for a route path.
pub fn paths_to_render(path: &RoutePath, global: &Object) -> (r: Result<Vec<PathToRender>, Error>)
    ensures
        match r {
            Ok(paths) => paths_of(path@, *global) == Ok::<Seq<PathView>, ErrorView>(
                path_views(paths@),
            ),
            Err(e) => paths_of(path@, *global) == Err::<Seq<PathView>, ErrorView>(e@),
        },
{
    let mut paths: Vec<PathToRender> = Vec::new();
    paths.push(PathToRender::new());
    let ghost start = seq![first_path()];
    let ghost fragments = path@;
    assert(path_views(paths@) =~= start);
    assert(fragments.take(0) =~= Seq::<FragmentView>::empty());
    let mut i: usize = 0;
    while i < path.0.len()
        invariant
            i <= path.0.len(),
            fragments == path@,
            start == seq![first_path()],
            with_fragments(start, fragments.take(i as int), *global) == Ok::<
                Seq<PathView>,
                ErrorView,
            >(path_views(paths@)),
        decreases path.0.len() - i,
    {
        proof {
            assert(fragments.take(i + 1).drop_last() =~= fragments.take(i as int));
            assert(fragments.take(i + 1).last() == path.0@[i as int]@);
        }
        match add_fragment(&paths, &path.0[i], global) {
            Ok(next) => {
                paths = next;
            },
            Err(e) => {
                proof {
                    lemma_failure_ends_fragments(start, fragments, *global, i + 1);
                }
                return Err(e);
            },
        }
        i += 1;
    }
    assert(fragments.take(path.0@.len() as int) =~= fragments);
    Ok(finish_paths(&paths))
}

/// Once a route has failed, more routes do not change the outcome.
proof fn lemma_failure_ends_conversion(routes: Seq<RouteView>, global: Object, k: int)
    requires
        0 <= k <= routes.len(),
        converted(routes.take(k), global) is Err,
    ensures
        converted(routes, global) == converted(routes.take(k), global),
    decreases routes.len() - k,
{
    if k < routes.len() {
        assert(routes.take(k + 1).drop_last() =~= routes.take(k));
        lemma_failure_ends_conversion(routes, global, k + 1);
    } else {
        assert(routes.take(k) =~= routes);
    }
}

/// Turns routes into the files that are rendered for them. `global` holds
/// the values that the route paths name.
pub fn convert_routes(routes: Vec<Route>, global: &Object) -> (r: Result<
    Vec<TemplateToRender>,
    Error,
>)
    ensures
        match r {
            Ok(templates) => converted(route_views(routes@), *global) == Ok::<
                Seq<TemplateView>,
                ErrorView,
            >(template_views(templates@)),
            Err(e) => converted(route_views(routes@), *global) == Err::<
                Seq<TemplateView>,
                ErrorView,
            >(e@),
        },
{
    let ghost all = route_views(routes@);
    // Routes are taken from the back, so they are turned round first.
    let mut front = routes;
    let mut rest: Vec<Route> = Vec::new();
    assert(route_views(front@) + route_views(rest@).reverse() =~= all);
    while front.len() > 0
        invariant
            route_views(front@) + route_views(rest@).reverse() == all,
        decreases front.len(),
    {
        let ghost before = route_views(front@);
        let ghost rest_before = route_views(rest@);
        let route = front.pop().unwrap();
        rest.push(route);
        proof {
            assert(route_views(rest@) =~= rest_before.push(route@));
            assert(before =~= route_views(front@).push(route@));
            assert(route_views(front@) + route_views(rest@).reverse() =~= before
                + rest_before.reverse());
        }
    }
    assert(route_views(rest@).reverse() =~= all);

    let mut templates: Vec<TemplateToRender> = Vec::new();
    let ghost mut done: int = 0;
    assert(all.take(0) =~= Seq::<RouteView>::empty());
    assert(template_views(templates@) =~= Seq::<TemplateView>::empty());
    while rest.len() > 0
        invariant
            0 <= done <= all.len(),
            all == route_views(routes@),
            done + rest@.len() == all.len(),
            all.take(done) + route_views(rest@).reverse() == all,
            converted(all.take(done), *global) == Ok::<Seq<TemplateView>, ErrorView>(
                template_views(templates@),
            ),
        decreases rest.len(),
    {
        let ghost rest_before = route_views(rest@);
        let ghost templates_before = template_views(templates@);
        let route = rest.pop().unwrap();
        proof {
            assert(rest_before =~= route_views(rest@).push(route@));
            assert(rest_before.reverse()[0] == route@);
            assert(all[done] == route@);
            assert(all.take(done + 1).drop_last() =~= all.take(done));
            assert(all.take(done + 1).last() == route@);
            assert(all.take(done + 1) + route_views(rest@).reverse() =~= all.take(done)
                + rest_before.reverse());
        }
        match paths_to_render(&route.path, global) {
            Ok(paths) => {
                let ghost added = TemplateView { route: route@, paths: path_views(paths@) };
                templates.push(TemplateToRender { route, paths });
                assert(template_views(templates@) =~= templates_before.push(added));
            },
            Err(e) => {
                proof {
                    lemma_failure_ends_conversion(all, *global, done + 1);
                }
                return Err(e);
            },
        }
        proof {
            done = done + 1;
        }
    }
    assert(all.take(done) =~= all);
    Ok(templates)
}

} // verus!
