//! How the file server answers a request.
//!
//! The server reads nothing itself. Its caller finds out which files exist
//! and hands that knowledge over as an [`OutputTree`]; the router answers
//! with the file to send, or with the page that says that there is none.

use vstd::prelude::*;
use vstd::string::StringExecFns;
use crate::server::files::{fallback_404, fallback_404_text};
use crate::text::{
    chars_of, ends_with, has_prefix, has_suffix, same_text, split_on, split_on_char, starts_with,
    views,
};

verus! {

/// The only request method that is answered with a file.
pub const GET: &'static str = "GET";

/// The route under which a site keeps its own not-found page.
pub const NOT_FOUND_ROUTE: &'static str = "/404";

/// The sequences of `parts` that are not empty, in order.
pub open spec fn non_empty(parts: Seq<Seq<char>>) -> Seq<Seq<char>>
    decreases parts.len(),
{
    if parts.len() == 0 {
        parts
    } else if parts.last().len() == 0 {
        non_empty(parts.drop_last())
    } else {
        non_empty(parts.drop_last()).push(parts.last())
    }
}

/// The names along a path: what stands between its slashes. Two paths with
/// the same names lead to the same file, however many slashes they hold.
pub open spec fn segments(path: Seq<char>) -> Seq<Seq<char>> {
    non_empty(split_on(path, '/'))
}

/// Whether a path can name a file at all: it is not empty and does not end
/// in a slash, which would name a folder.
pub open spec fn names_file(path: Seq<char>) -> bool {
    path.len() > 0 && path.last() != '/'
}

/// Whether `path` is a regular file of `tree`.
pub open spec fn is_file(tree: Set<Seq<Seq<char>>>, path: Seq<char>) -> bool {
    names_file(path) && tree.contains(segments(path))
}

/// Whether `path` can name a file.
pub fn can_name_file(path: &str) -> (b: bool)
    ensures
        b == names_file(path@),
{
    let chars = chars_of(path);
    chars.len() > 0 && chars[chars.len() - 1] != '/'
}

/// The names along `path`.
pub fn segments_of(path: &str) -> (names: Vec<String>)
    ensures
        views(names@) == segments(path@),
{
    let parts = split_on_char(path, '/');
    let mut names: Vec<String> = Vec::new();
    let mut i: usize = 0;
    while i < parts.len()
        invariant
            i <= parts.len(),
            views(parts@) == split_on(path@, '/'),
            views(names@) == non_empty(views(parts@).take(i as int)),
        decreases parts.len() - i,
    {
        let ghost before = views(names@);
        let ghost taken = views(parts@).take(i + 1);
        proof {
            assert(taken.drop_last() =~= views(parts@).take(i as int));
            assert(taken.last() == parts@[i as int]@);
        }
        if !parts[i].as_str().is_empty() {
            names.push(parts[i].clone());
            assert(views(names@) =~= before.push(parts@[i as int]@));
        }
        i += 1;
    }
    assert(views(parts@).take(parts@.len() as int) =~= views(parts@));
    names
}

/// Whether two lists of names are the same.
fn same_names(a: &Vec<String>, b: &Vec<String>) -> (same: bool)
    ensures
        same == (views(a@) == views(b@)),
{
    if a.len() != b.len() {
        assert(views(a@).len() != views(b@).len());
        return false;
    }
    let mut i: usize = 0;
    while i < a.len()
        invariant
            i <= a.len(),
            a.len() == b.len(),
            forall|j: int| 0 <= j < i ==> a@[j]@ == b@[j]@,
        decreases a.len() - i,
    {
        if !same_text(a[i].as_str(), b[i].as_str()) {
            assert(views(a@)[i as int] != views(b@)[i as int]);
            return false;
        }
        i += 1;
    }
    assert(views(a@) =~= views(b@));
    true
}

/// What is known of the output folder while one request is answered: the
/// regular files that were found in it, each known by the names along its
/// path. The caller asks the disk anew for every request and keeps no tree
/// between two of them.
pub struct OutputTree {
    files: Vec<Vec<String>>,
}

impl View for OutputTree {
    type V = Set<Seq<Seq<char>>>;

    closed spec fn view(&self) -> Set<Seq<Seq<char>>> {
        Set::new(
            |names: Seq<Seq<char>>|
                exists|i: int| 0 <= i < self.files@.len() && views(#[trigger] self.files@[i]@) == names,
        )
    }
}

impl OutputTree {
    /// A tree without files.
    pub fn new() -> (tree: Self)
        ensures
            tree@ == Set::<Seq<Seq<char>>>::empty(),
    {
        let tree = OutputTree { files: Vec::new() };
        assert(tree@ =~= Set::<Seq<Seq<char>>>::empty());
        tree
    }

    /// Records that `path` is a regular file. A path that cannot name a
    /// file is passed over.
    pub fn insert(&mut self, path: &str)
        ensures
            final(self)@ == (if names_file(path@) {
                old(self)@.insert(segments(path@))
            } else {
                old(self)@
            }),
    {
        if !can_name_file(path) {
            return ;
        }
        let names = segments_of(path);
        let ghost before = self.files@;
        self.files.push(names);
        proof {
            assert forall|f: Seq<Seq<char>>| self@.contains(f) == old(self)@.insert(
                segments(path@),
            ).contains(f) by {
                if self@.contains(f) {
                    let i = choose|i: int|
                        0 <= i < self.files@.len() && views(#[trigger] self.files@[i]@) == f;
                    if i < before.len() {
                        assert(views(before[i]@) == f);
                    }
                }
                if old(self)@.contains(f) {
                    let i = choose|i: int|
                        0 <= i < before.len() && views(#[trigger] before[i]@) == f;
                    assert(views(self.files@[i]@) == f);
                }
                if f == segments(path@) {
                    assert(views(self.files@[before.len() as int]@) == f);
                }
            }
            assert(self@ =~= old(self)@.insert(segments(path@)));
        }
    }

    /// Whether `path` is a regular file of the tree.
    pub fn contains(&self, path: &str) -> (b: bool)
        ensures
            b == is_file(self@, path@),
    {
        if !can_name_file(path) {
            return false;
        }
        let names = segments_of(path);
        let mut i: usize = 0;
        while i < self.files.len()
            invariant
                i <= self.files.len(),
                names_file(path@),
                views(names@) == segments(path@),
                forall|j: int| 0 <= j < i ==> views(#[trigger] self.files@[j]@) != segments(path@),
            decreases self.files.len() - i,
        {
            if same_names(&self.files[i], &names) {
                return true;
            }
            i += 1;
        }
        false
    }
}

/// Whether a request path names its file literally: it ends in `.html`, or
/// it lies under the styles or the public subtree.
pub open spec fn is_literal_path(path: Seq<char>) -> bool {
    has_suffix(path, ".html"@) || has_prefix(path, "/styles"@) || has_prefix(path, "/public"@)
}

/// What may be appended to a request path to find its file, in the order
/// in which it is tried.
pub open spec fn path_suffixes(path: Seq<char>) -> Seq<Seq<char>> {
    if is_literal_path(path) {
        seq![""@]
    } else {
        seq![""@, ".html"@, "/index.html"@]
    }
}

/// The files that may answer a request for `path`, in the order in which
/// they are tried.
pub open spec fn candidates(path: Seq<char>) -> Seq<Seq<char>> {
    path_suffixes(path).map_values(|suffix: Seq<char>| path + suffix)
}

/// The first of `paths` that is a file of `tree`.
pub open spec fn first_existing(tree: Set<Seq<Seq<char>>>, paths: Seq<Seq<char>>) -> Option<
    Seq<char>,
>
    decreases paths.len(),
{
    if paths.len() == 0 {
        None
    } else if is_file(tree, paths[0]) {
        Some(paths[0])
    } else {
        first_existing(tree, paths.drop_first())
    }
}

/// The file that answers a request for `path`, if there is one.
pub open spec fn resolved(tree: Set<Seq<Seq<char>>>, path: Seq<char>) -> Option<Seq<char>> {
    first_existing(tree, candidates(path))
}

/// The views of a sequence of string slices.
pub open spec fn slice_views(v: Seq<&'static str>) -> Seq<Seq<char>> {
    v.map_values(|s: &'static str| s@)
}

/// Whether `path` names its file literally.
pub fn names_file_literally(path: &str) -> (b: bool)
    ensures
        b == is_literal_path(path@),
{
    ends_with(path, ".html") || starts_with(path, "/styles") || starts_with(path, "/public")
}

/// The suffixes under which the file of `path` is looked for: none but the
/// empty one for a literal path, else the empty one, `.html` and
/// `/index.html`, in that order.
pub fn possible_path_suffixes(path: &str) -> (suffixes: Vec<&'static str>)
    ensures
        slice_views(suffixes@) == path_suffixes(path@),
{
    let mut suffixes: Vec<&'static str> = Vec::new();
    suffixes.push("");
    if !names_file_literally(path) {
        suffixes.push(".html");
        suffixes.push("/index.html");
    }
    assert(slice_views(suffixes@) =~= path_suffixes(path@));
    suffixes
}

/// The files that may answer a request for `path`, in the order in which
/// they are tried.
pub fn possible_files_from_path(path: &str) -> (files: Vec<String>)
    ensures
        views(files@) == candidates(path@),
{
    let suffixes = possible_path_suffixes(path);
    let mut files: Vec<String> = Vec::new();
    let mut i: usize = 0;
    while i < suffixes.len()
        invariant
            i <= suffixes.len(),
            slice_views(suffixes@) == path_suffixes(path@),
            views(files@) == candidates(path@).take(i as int),
        decreases suffixes.len() - i,
    {
        let ghost before = views(files@);
        let mut file = String::from_str(path);
        file.append(suffixes[i]);
        files.push(file);
        proof {
            assert(slice_views(suffixes@)[i as int] == suffixes@[i as int]@);
            assert(views(files@) =~= before.push(path@ + suffixes@[i as int]@));
            assert(candidates(path@).take(i + 1) =~= candidates(path@).take(i as int).push(
                path@ + suffixes@[i as int]@,
            ));
        }
        i += 1;
    }
    assert(candidates(path@).take(suffixes@.len() as int) =~= candidates(path@));
    files
}

/// The file that answers a request for `path`: the first candidate that is
/// a file of the tree.
pub fn get_best_possible_file(tree: &OutputTree, path: &str) -> (found: Option<String>)
    ensures
        match found {
            Some(file) => resolved(tree@, path@) == Some(file@),
            None => resolved(tree@, path@) is None,
        },
{
    let files = possible_files_from_path(path);
    let ghost all = views(files@);
    let mut i: usize = 0;
    assert(all.skip(0) =~= all);
    while i < files.len()
        invariant
            i <= files.len(),
            views(files@) == all,
            all == candidates(path@),
            first_existing(tree@, all.skip(i as int)) == first_existing(tree@, all),
        decreases files.len() - i,
    {
        proof {
            assert(all.skip(i as int)[0] == files@[i as int]@);
            assert(all.skip(i as int).drop_first() =~= all.skip(i + 1));
        }
        if tree.contains(files[i].as_str()) {
            return Some(files[i].clone());
        }
        i += 1;
    }
    None
}

/// How the server answers a request.
pub enum Reply {
    /// With status 200 and the bytes of this file.
    File { path: String },
    /// With status 404 and the bytes of this file, the site's own
    /// not-found page.
    NotFoundPage { path: String },
    /// With status 404 and this body, the built-in not-found page.
    Fallback { body: String },
}

/// A [`Reply`] as contracts speak of it.
pub enum ReplyView {
    File { path: Seq<char> },
    NotFoundPage { path: Seq<char> },
    Fallback { body: Seq<char> },
}

impl View for Reply {
    type V = ReplyView;

    open spec fn view(&self) -> ReplyView {
        match self {
            Reply::File { path } => ReplyView::File { path: path@ },
            Reply::NotFoundPage { path } => ReplyView::NotFoundPage { path: path@ },
            Reply::Fallback { body } => ReplyView::Fallback { body: body@ },
        }
    }
}

impl Reply {
    /// The status of the response.
    pub fn status(&self) -> (code: u16)
        ensures
            code == (if self@ is File {
                200u16
            } else {
                404u16
            }),
    {
        match self {
            Reply::File { .. } => 200,
            _ => 404,
        }
    }
}

/// The answer to a request that found no file: the site's own not-found
/// page where the tree holds one, else the built-in page.
pub open spec fn not_found(tree: Set<Seq<Seq<char>>>, port_ws: u16) -> ReplyView {
    match resolved(tree, NOT_FOUND_ROUTE@) {
        Some(path) => ReplyView::NotFoundPage { path },
        None => ReplyView::Fallback { body: fallback_404_text(port_ws) },
    }
}

/// The answer to a request.
pub open spec fn routed(
    tree: Set<Seq<Seq<char>>>,
    method: Seq<char>,
    path: Seq<char>,
    port_ws: u16,
) -> ReplyView {
    if method == GET@ && resolved(tree, path) is Some {
        ReplyView::File { path: resolved(tree, path).unwrap() }
    } else {
        not_found(tree, port_ws)
    }
}

/// Every path that the router may ask the tree about while it answers a
/// request for `path`: the candidates of `path`, then those of the
/// not-found route.
pub fn paths_to_probe(path: &str) -> (paths: Vec<String>)
    ensures
        views(paths@) == candidates(path@) + candidates(NOT_FOUND_ROUTE@),
{
    let mut paths = possible_files_from_path(path);
    let mut more = possible_files_from_path(NOT_FOUND_ROUTE);
    let ghost first = views(paths@);
    let ghost second = views(more@);
    paths.append(&mut more);
    assert(views(paths@) =~= first + second);
    paths
}

/// Answers a request. Only a `GET` is answered with the file of its path;
/// everything else gets the not-found answer.
pub fn server_router(tree: &OutputTree, method: &str, path: &str, port_ws: u16) -> (reply: Reply)
    ensures
        reply@ == routed(tree@, method@, path@, port_ws),
{
    if same_text(method, GET) {
        if let Some(file) = get_best_possible_file(tree, path) {
            return Reply::File { path: file };
        }
    }
    match get_best_possible_file(tree, NOT_FOUND_ROUTE) {
        Some(file) => Reply::NotFoundPage { path: file },
        None => Reply::Fallback { body: fallback_404(port_ws) },
    }
}

/// A request whose path resolves to no file, or whose method is not `GET`,
/// is answered with status 404: with the site's own not-found page where
/// one can be resolved, and with the built-in page, the websocket port
/// filled in, where none can.
pub proof fn lemma_not_found_precedence(
    tree: Set<Seq<Seq<char>>>,
    method: Seq<char>,
    path: Seq<char>,
    port_ws: u16,
)
    requires
        method != GET@ || resolved(tree, path) is None,
    ensures
        resolved(tree, NOT_FOUND_ROUTE@) is Some ==> routed(tree, method, path, port_ws)
            == (ReplyView::NotFoundPage { path: resolved(tree, NOT_FOUND_ROUTE@).unwrap() }),
        resolved(tree, NOT_FOUND_ROUTE@) is None ==> routed(tree, method, path, port_ws)
            == (ReplyView::Fallback { body: fallback_404_text(port_ws) }),
{
}

/// The file that answers a request is one of its candidates and a file of
/// the tree, and no candidate before it is a file of the tree.
pub proof fn lemma_first_match_wins(tree: Set<Seq<Seq<char>>>, paths: Seq<Seq<char>>)
    ensures
        match first_existing(tree, paths) {
            Some(file) => exists|i: int|
                0 <= i < paths.len() && paths[i] == file && is_file(tree, file) && forall|j: int|
                    0 <= j < i ==> !is_file(tree, #[trigger] paths[j]),
            None => forall|j: int| 0 <= j < paths.len() ==> !is_file(tree, #[trigger] paths[j]),
        },
    decreases paths.len(),
{
    if paths.len() > 0 && !is_file(tree, paths[0]) {
        let rest = paths.drop_first();
        lemma_first_match_wins(tree, rest);
        match first_existing(tree, rest) {
            Some(file) => {
                let i = choose|i: int|
                    0 <= i < rest.len() && rest[i] == file && is_file(tree, file) && forall|j: int|
                        0 <= j < i ==> !is_file(tree, #[trigger] rest[j]);
                assert(paths[i + 1] == file);
                assert forall|j: int| 0 <= j < i + 1 implies !is_file(tree, #[trigger] paths[j]) by {
                    if j > 0 {
                        assert(paths[j] == rest[j - 1]);
                    }
                }
            },
            None => {
                assert forall|j: int| 0 <= j < paths.len() implies !is_file(
                    tree,
                    #[trigger] paths[j],
                ) by {
                    if j > 0 {
                        assert(paths[j] == rest[j - 1]);
                    }
                }
            },
        }
    } else if paths.len() > 0 {
        assert(paths[0] == paths[0]);
    }
}

} // verus!
