//! The path of a route, read from the name of its template file.
//!
//! A template file `news/$article.hbs` stands for the routes `/news/<article>`:
//! the extension is dropped, a final `~` names the index of its folder, and a
//! name that begins with `$` is filled in from a value.

use vstd::prelude::*;
use vstd::string::StringExecFns;
use crate::error::{Error, ErrorView};
use crate::text::{
    chars_of, contains_char, empty_text, ends_with, has_suffix, same_text, split_on,
    split_on_char, views,
};

verus! {

/// Said of a template file whose name does not end in `.hbs`.
pub const NOT_A_TEMPLATE: &'static str = "File is not `.hbs` Handlebars file";

/// Said of a `~` that is not the last name of the path.
pub const MISPLACED_INDEX: &'static str = "Cannot use `~` index identifier in this position";

/// Said of a `$` that is not the first character of a name.
pub const MISPLACED_VALUE: &'static str = "Cannot use `$` value identifier in this position";

/// One name of a route path.
#[derive(Debug, PartialEq)]
pub enum Fragment {
    /// A name that stands for itself.
    Literal(String),
    /// The name of a value; the route has one path for each key of it.
    Value(String),
}

/// A [`Fragment`] as contracts speak of it.
pub enum FragmentView {
    Literal(Seq<char>),
    Value(Seq<char>),
}

impl View for Fragment {
    type V = FragmentView;

    open spec fn view(&self) -> FragmentView {
        match self {
            Fragment::Literal(name) => FragmentView::Literal(name@),
            Fragment::Value(name) => FragmentView::Value(name@),
        }
    }
}

/// The views of a sequence of fragments.
pub open spec fn fragment_views(fragments: Seq<Fragment>) -> Seq<FragmentView> {
    fragments.map_values(|f: Fragment| f@)
}

/// The path of a route: its fragments, outermost first.
#[derive(Debug, PartialEq)]
pub struct RoutePath(pub Vec<Fragment>);

impl View for RoutePath {
    type V = Seq<FragmentView>;

    open spec fn view(&self) -> Seq<FragmentView> {
        fragment_views(self.0@)
    }
}

/// The view of a result that carries a string slice.
pub open spec fn slice_result_view(r: Result<&str, Error>) -> Result<Seq<char>, ErrorView> {
    match r {
        Ok(s) => Ok(s@),
        Err(e) => Err(e@),
    }
}

/// The view of a result that carries fragments.
pub open spec fn fragments_result_view(r: Result<Vec<Fragment>, Error>) -> Result<
    Seq<FragmentView>,
    ErrorView,
> {
    match r {
        Ok(v) => Ok(fragment_views(v@)),
        Err(e) => Err(e@),
    }
}

/// The view of a result that carries a route path.
pub open spec fn path_result_view(r: Result<RoutePath, Error>) -> Result<
    Seq<FragmentView>,
    ErrorView,
> {
    match r {
        Ok(p) => Ok(p@),
        Err(e) => Err(e@),
    }
}

/// A file path without its `.hbs` extension; an error for any other file.
pub open spec fn without_hbs_extension(filepath: Seq<char>) -> Result<Seq<char>, ErrorView> {
    if has_suffix(filepath, ".hbs"@) {
        Ok(filepath.take(filepath.len() - 4))
    } else {
        Err(ErrorView::Generic(NOT_A_TEMPLATE@))
    }
}

/// A path whose final `~` is replaced by the folder it is the index of; an
/// error for a `~` anywhere else.
pub open spec fn without_index_ident(filepath: Seq<char>) -> Result<Seq<char>, ErrorView> {
    if filepath == "~"@ {
        Ok(Seq::empty())
    } else if has_suffix(filepath, "/~"@) {
        Ok(filepath.take(filepath.len() - 2))
    } else if filepath.contains('~') {
        Err(ErrorView::Generic(MISPLACED_INDEX@))
    } else {
        Ok(filepath)
    }
}

/// The fragment that one name of a path stands for, if it stands for one.
pub open spec fn fragment_of(name: Seq<char>) -> Option<FragmentView> {
    if name.len() > 0 && name[0] == '$' {
        Some(FragmentView::Value(name.skip(1)))
    } else if name.contains('$') {
        None
    } else {
        Some(FragmentView::Literal(name))
    }
}

/// The fragments of the names of a path; an error where one of the names
/// stands for no fragment.
pub open spec fn fragments_of(names: Seq<Seq<char>>) -> Result<Seq<FragmentView>, ErrorView> {
    if forall|i: int| 0 <= i < names.len() ==> (#[trigger] fragment_of(names[i])) is Some {
        Ok(names.map_values(|name: Seq<char>| fragment_of(name).unwrap()))
    } else {
        Err(ErrorView::Generic(MISPLACED_VALUE@))
    }
}

/// The fragments of a path.
pub open spec fn split_into_fragments(filepath: Seq<char>) -> Result<
    Seq<FragmentView>,
    ErrorView,
> {
    fragments_of(split_on(filepath, '/'))
}

/// The route path of a template file.
pub open spec fn route_path_of(filepath: Seq<char>) -> Result<Seq<FragmentView>, ErrorView> {
    match without_hbs_extension(filepath) {
        Err(e) => Err(e),
        Ok(bare) => match without_index_ident(bare) {
            Err(e) => Err(e),
            Ok(path) => split_into_fragments(path),
        },
    }
}

/// The text of one fragment in a printed route path: a literal as it is, a
/// value between angle brackets.
pub open spec fn fragment_text(fragment: FragmentView) -> Seq<char> {
    match fragment {
        FragmentView::Literal(name) => name,
        FragmentView::Value(name) => "<"@ + name + ">"@,
    }
}

/// The texts of the fragments with a slash between each two.
pub open spec fn joined_fragments(fragments: Seq<FragmentView>) -> Seq<char>
    decreases fragments.len(),
{
    if fragments.len() == 0 {
        Seq::empty()
    } else if fragments.len() == 1 {
        fragment_text(fragments[0])
    } else {
        joined_fragments(fragments.drop_last()) + "/"@ + fragment_text(fragments.last())
    }
}

/// A route path as it is printed: a slash, then the fragments with a slash
/// between each two.
pub open spec fn route_path_text(fragments: Seq<FragmentView>) -> Seq<char> {
    "/"@ + joined_fragments(fragments)
}

impl RoutePath {
    /// The route path of the template file `filepath`.
    pub fn try_from(filepath: &str) -> (r: Result<RoutePath, Error>)
        ensures
            path_result_view(r) == route_path_of(filepath@),
    {
        route_path_from_filename(filepath)
    }

    /// The path as it is printed, such as `/news/<article>`.
    pub fn to_text(&self) -> (text: String)
        ensures
            text@ == route_path_text(self@),
    {
        let mut text = String::from_str("/");
        let mut i: usize = 0;
        assert(self@.take(0) =~= Seq::<FragmentView>::empty());
        assert(text@ =~= "/"@ + joined_fragments(self@.take(0)));
        while i < self.0.len()
            invariant
                i <= self.0.len(),
                text@ == "/"@ + joined_fragments(self@.take(i as int)),
            decreases self.0.len() - i,
        {
            let ghost before = text@;
            let ghost taken = self@.take(i + 1);
            proof {
                assert(taken.drop_last() =~= self@.take(i as int));
                assert(taken.last() == self.0@[i as int]@);
            }
            if i > 0 {
                text.append("/");
            }
            match &self.0[i] {
                Fragment::Literal(name) => {
                    text.append(name.as_str());
                },
                Fragment::Value(name) => {
                    text.append("<");
                    text.append(name.as_str());
                    text.append(">");
                },
            }
            proof {
                if i == 0 {
                    assert(before =~= "/"@);
                    assert(text@ =~= "/"@ + fragment_text(taken[0]));
                } else {
                    assert(text@ =~= "/"@ + (joined_fragments(taken.drop_last()) + "/"@
                        + fragment_text(taken.last())));
                }
            }
            i += 1;
        }
        assert(self@.take(self.0@.len() as int) =~= self@);
        text
    }
}

/// Turns the name of a template file into the path of its route.
pub fn route_path_from_filename(filepath: &str) -> (r: Result<RoutePath, Error>)
    ensures
        path_result_view(r) == route_path_of(filepath@),
{
    let bare = match remove_hbs_extension(filepath) {
        Ok(bare) => bare,
        Err(e) => {
            return Err(e);
        },
    };
    let path = match replace_index_ident(bare) {
        Ok(path) => path,
        Err(e) => {
            return Err(e);
        },
    };
    match split_fragments(path) {
        Ok(fragments) => Ok(RoutePath(fragments)),
        Err(e) => Err(e),
    }
}

/// Removes the `.hbs` extension from a file path.
pub fn remove_hbs_extension(filepath: &str) -> (r: Result<&str, Error>)
    ensures
        slice_result_view(r) == without_hbs_extension(filepath@),
{
    if !ends_with(filepath, ".hbs") {
        return Err(Error::Generic(String::from_str(NOT_A_TEMPLATE)));
    }
    proof {
        reveal_strlit(".hbs");
    }
    let len = filepath.unicode_len();
    let bare = filepath.substring_char(0, len - 4);
    assert(bare@ =~= filepath@.take(filepath@.len() - 4));
    Ok(bare)
}

/// Replaces the index identifier `~` at the end of a path by the folder it
/// is the index of.
pub fn replace_index_ident(filepath: &str) -> (r: Result<&str, Error>)
    ensures
        slice_result_view(r) == without_index_ident(filepath@),
{
    if same_text(filepath, "~") {
        return Ok(empty_text());
    }
    if ends_with(filepath, "/~") {
        proof {
            reveal_strlit("/~");
        }
        let len = filepath.unicode_len();
        let folder = filepath.substring_char(0, len - 2);
        assert(folder@ =~= filepath@.take(filepath@.len() - 2));
        return Ok(folder);
    }
    if contains_char(filepath, '~') {
        return Err(Error::Generic(String::from_str(MISPLACED_INDEX)));
    }
    Ok(filepath)
}

/// The fragment of one name of a path.
fn fragment_from_name(name: &str) -> (found: Option<Fragment>)
    ensures
        match found {
            Some(f) => fragment_of(name@) == Some(f@),
            None => fragment_of(name@) is None,
        },
{
    let chars = chars_of(name);
    if chars.len() > 0 && chars[0] == '$' {
        let rest = name.substring_char(1, chars.len());
        assert(rest@ =~= name@.skip(1));
        Some(Fragment::Value(String::from_str(rest)))
    } else if contains_char(name, '$') {
        None
    } else {
        Some(Fragment::Literal(String::from_str(name)))
    }
}

/// Splits a path into its fragments.
pub fn split_fragments(filepath: &str) -> (r: Result<Vec<Fragment>, Error>)
    ensures
        fragments_result_view(r) == split_into_fragments(filepath@),
{
    let names = split_on_char(filepath, '/');
    let ghost all = split_on(filepath@, '/');
    let mut fragments: Vec<Fragment> = Vec::new();
    let mut i: usize = 0;
    while i < names.len()
        invariant
            i <= names.len(),
            views(names@) == all,
            all == split_on(filepath@, '/'),
            fragments@.len() == i,
            forall|j: int| 0 <= j < i ==> fragment_of(all[j]) == Some(#[trigger] fragments@[j]@),
        decreases names.len() - i,
    {
        assert(all[i as int] == names@[i as int]@);
        match fragment_from_name(names[i].as_str()) {
            Some(fragment) => {
                fragments.push(fragment);
            },
            None => {
                assert(0 <= i < all.len() && fragment_of(all[i as int]) is None);
                assert(fragments_of(all) is Err);
                return Err(Error::Generic(String::from_str(MISPLACED_VALUE)));
            },
        }
        i += 1;
    }
    proof {
        assert forall|j: int| 0 <= j < all.len() implies (#[trigger] fragment_of(all[j])) is Some by {
            assert(fragment_of(all[j]) == Some(fragments@[j]@));
        }
        assert(fragment_views(fragments@) =~= all.map_values(
            |name: Seq<char>| fragment_of(name).unwrap(),
        )) by {
            assert forall|j: int| 0 <= j < all.len() implies fragment_views(fragments@)[j]
                == fragment_of(all[j]).unwrap() by {
                assert(fragment_of(all[j]) == Some(fragments@[j]@));
            }
        }
    }
    Ok(fragments)
}

} // verus!
