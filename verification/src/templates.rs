//! Registering the templates of a site with the template engine.

use vstd::prelude::*;
use vstd::string::StringExecFns;
use crate::convert::{partial_registered, template_registered};
use crate::error::{unit_result_view, Error, ErrorView};
use crate::filemap::FileMap;

verus! {

/// The registry of the template engine.
#[verifier::external_type_specification]
#[verifier::external_body]
pub struct ExHandlebars<'reg>(handlebars::Handlebars<'reg>);

/// The names under which a registry holds a template.
pub uninterp spec fn template_names(registry: handlebars::Handlebars<'_>) -> Set<Seq<char>>;

/// What the template engine finds wrong with a text that is registered
/// under `name`, in the engine's own words; nothing where the text
/// compiles. The engine reads the text alone to find a fault, and names the
/// template in its description of it.
pub uninterp spec fn partial_fault(name: Seq<char>, text: Seq<char>) -> Option<Seq<char>>;

/// `handlebars::Handlebars::register_partial`. The engine compiles the text
/// and, where that succeeds, stores the template under `name`, in place of
/// what `name` stood for before. Where the text does not compile, the
/// registry stays as it was and the answer holds the engine's description
/// of the fault.
#[verifier::external_body]
fn register_partial(
    registry: &mut handlebars::Handlebars<'_>,
    name: &str,
    text: &str,
) -> (r: Result<(), String>)
    ensures
        r matches Err(fault) ==> partial_fault(name@, text@) == Some(fault@),
        r is Ok ==> partial_fault(name@, text@) is None,
        r is Ok ==> template_names(*final(registry)) == template_names(*old(registry)).insert(
            name@,
        ),
        r is Err ==> template_names(*final(registry)) == template_names(*old(registry)),
{
    registry.register_partial(name, text).map_err(|e| e.to_string())
}

/// A link to a page of the site.
pub const LINK_PARTIAL: &'static str = "<a href=\"{{URL}}{{to}}\">{{>@partial-block}}</a>";

/// The tag that loads a style sheet of the site.
pub const CSS_PARTIAL: &'static str =
    "<link rel=\"stylesheet\" href=\"{{URL}}styles/{{name}}/style.css\" />";

/// The tag that names the icon of the site.
pub const ICON_PARTIAL: &'static str = "<link rel=\"icon\" href=\"{{URL}}public/{{name}}\" />";

/// The tags that every page should have.
pub const META_PARTIAL: &'static str =
    "<meta charset=\"utf-8\" />\n<meta name=\"viewport\" content=\"width=device-width, initial-scale=1\" />";

/// The tags that describe a page to those who link to it.
pub const META_EXTRA_PARTIAL: &'static str =
    "<meta name=\"description\" content=\"{{description}}\" />\n<meta property=\"og:title\" content=\"{{title}}\" />";

/// The names of the built-in partials, in the order in which they are
/// registered.
pub open spec fn inbuilt_names() -> Seq<Seq<char>> {
    seq!["LINK"@, "CSS"@, "ICON"@, "META"@, "META_EXTRA"@]
}

/// The texts of the built-in partials by their names.
pub open spec fn inbuilt_texts() -> Map<Seq<char>, Seq<char>> {
    Map::<Seq<char>, Seq<char>>::empty().insert("LINK"@, LINK_PARTIAL@).insert(
        "CSS"@,
        CSS_PARTIAL@,
    ).insert("ICON"@, ICON_PARTIAL@).insert("META"@, META_PARTIAL@).insert(
        "META_EXTRA"@,
        META_EXTRA_PARTIAL@,
    )
}

/// The index of the first of `names` whose text has a fault, or the number
/// of names where every text compiles.
pub open spec fn first_fault(names: Seq<Seq<char>>, texts: Map<Seq<char>, Seq<char>>) -> int
    decreases names.len(),
{
    if names.len() == 0 {
        0
    } else if partial_fault(names[0], texts[names[0]]) is Some {
        0
    } else {
        1 + first_fault(names.drop_first(), texts)
    }
}

/// The error for a template that could not be registered: one variant for
/// the templates of a site, another for the built-in partials.
pub open spec fn registration_error(name: Seq<char>, fault: Seq<char>, inbuilt: bool)
    -> ErrorView {
    if inbuilt {
        ErrorView::RegisterInbuiltTemplate(name, fault)
    } else {
        ErrorView::RegisterTemplate(name, fault)
    }
}

/// The outcome of registering the texts under `names`, in order: success
/// where every text compiles, else the error for the first that does not.
pub open spec fn registration(
    names: Seq<Seq<char>>,
    texts: Map<Seq<char>, Seq<char>>,
    inbuilt: bool,
) -> Result<(), ErrorView> {
    let k = first_fault(names, texts);
    if 0 <= k < names.len() {
        Err(registration_error(names[k], partial_fault(names[k], texts[names[k]]).unwrap(), inbuilt))
    } else {
        Ok(())
    }
}

/// The names that a registry holds after the texts under `names` were
/// registered in order: those it held before, and every name before the
/// first fault.
pub open spec fn names_after(
    before: Set<Seq<char>>,
    names: Seq<Seq<char>>,
    texts: Map<Seq<char>, Seq<char>>,
) -> Set<Seq<char>> {
    before.union(names.take(first_fault(names, texts)).to_set())
}

/// `first_fault` is the index of a faulty text with no faulty text before
/// it, or the number of names.
proof fn lemma_first_fault(names: Seq<Seq<char>>, texts: Map<Seq<char>, Seq<char>>, k: int)
    requires
        0 <= k <= names.len(),
        forall|j: int| 0 <= j < k ==> (#[trigger] partial_fault(names[j], texts[names[j]])) is None,
        k < names.len() ==> partial_fault(names[k], texts[names[k]]) is Some,
    ensures
        first_fault(names, texts) == k,
    decreases k,
{
    if k > 0 {
        let rest = names.drop_first();
        assert(partial_fault(names[0], texts[names[0]]) is None);
        assert forall|j: int| 0 <= j < k - 1 implies (#[trigger] partial_fault(
            rest[j],
            texts[rest[j]],
        )) is None by {
            assert(rest[j] == names[j + 1]);
            assert(partial_fault(names[j + 1], texts[names[j + 1]]) is None);
        }
        if k < names.len() {
            assert(rest[k - 1] == names[k]);
        }
        lemma_first_fault(rest, texts, k - 1);
    }
}

/// One more name held, after the names before it.
proof fn lemma_one_more_name(before: Set<Seq<char>>, names: Seq<Seq<char>>, k: int)
    requires
        0 <= k < names.len(),
    ensures
        before.union(names.take(k).to_set()).insert(names[k]) == before.union(
            names.take(k + 1).to_set(),
        ),
{
    let less = names.take(k);
    let more = names.take(k + 1);
    assert forall|n: Seq<char>| more.to_set().contains(n) == (less.to_set().contains(n) || n
        == names[k]) by {
        if more.contains(n) {
            let j = choose|j: int| 0 <= j < more.len() && more[j] == n;
            if j < k {
                assert(less[j] == n);
            }
        }
        if less.contains(n) {
            let j = choose|j: int| 0 <= j < less.len() && less[j] == n;
            assert(more[j] == n);
        }
        if n == names[k] {
            assert(more[k] == n);
        }
    }
    assert(before.union(less.to_set()).insert(names[k]) =~= before.union(more.to_set()));
}

/// Registers the texts of `templates`, each under its path and in the order
/// of the paths.
fn register_all(registry: &mut handlebars::Handlebars<'_>, templates: &FileMap, inbuilt: bool)
    -> (r: Result<(), Error>)
    requires
        templates.wf(),
    ensures
        unit_result_view(r) == registration(templates.spec_paths(), templates@, inbuilt),
        template_names(*final(registry)) == names_after(
            template_names(*old(registry)),
            templates.spec_paths(),
            templates@,
        ),
{
    let count = templates.len();
    let ghost names = templates.spec_paths();
    let ghost texts = templates@;
    let ghost before = template_names(*registry);
    let mut i: usize = 0;
    proof {
        assert(names.take(0).to_set() =~= Set::<Seq<char>>::empty());
        assert(before.union(names.take(0).to_set()) =~= before);
    }
    while i < count
        invariant
            i <= count,
            count == names.len(),
            names == templates.spec_paths(),
            texts == templates@,
            templates.wf(),
            before == template_names(*old(registry)),
            template_names(*registry) == before.union(names.take(i as int).to_set()),
            forall|j: int|
                0 <= j < i ==> (#[trigger] partial_fault(names[j], texts[names[j]])) is None,
        decreases count - i,
    {
        let name = match templates.path_at(i) {
            Some(name) => name,
            None => {
                proof {
                    assert(false);
                }
                return Ok(());
            },
        };
        let text = match templates.get(name.as_str()) {
            Some(text) => text,
            None => {
                proof {
                    assert(false);
                }
                return Ok(());
            },
        };
        let answer = register_partial(registry, name.as_str(), text.as_str());
        let outcome = if inbuilt {
            partial_registered(name.as_str(), answer)
        } else {
            template_registered(name.as_str(), answer)
        };
        match outcome {
            Ok(_) => {
                proof {
                    lemma_one_more_name(before, names, i as int);
                }
            },
            Err(e) => {
                proof {
                    lemma_first_fault(names, texts, i as int);
                }
                return Err(e);
            },
        }
        i += 1;
    }
    proof {
        lemma_first_fault(names, texts, count as int);
    }
    Ok(())
}

/// Registers the templates of a site, each under its path in `templates`
/// and in the order of the paths. The first template that does not compile
/// ends the work with an error that names it; the templates before it stay
/// registered.
pub fn register_templates(registry: &mut handlebars::Handlebars<'_>, templates: &FileMap) -> (r:
    Result<(), Error>)
    requires
        templates.wf(),
    ensures
        unit_result_view(r) == registration(templates.spec_paths(), templates@, false),
        template_names(*final(registry)) == names_after(
            template_names(*old(registry)),
            templates.spec_paths(),
            templates@,
        ),
{
    register_all(registry, templates, false)
}

/// Registers the built-in partials, in the order of their names. A partial
/// that does not compile ends the work with an error of its own kind.
pub fn register_partials(registry: &mut handlebars::Handlebars<'_>) -> (r: Result<(), Error>)
    ensures
        unit_result_view(r) == registration(inbuilt_names(), inbuilt_texts(), true),
        template_names(*final(registry)) == names_after(
            template_names(*old(registry)),
            inbuilt_names(),
            inbuilt_texts(),
        ),
{
    let mut partials = FileMap::new();
    partials.insert(String::from_str("LINK"), String::from_str(LINK_PARTIAL));
    partials.insert(String::from_str("CSS"), String::from_str(CSS_PARTIAL));
    partials.insert(String::from_str("ICON"), String::from_str(ICON_PARTIAL));
    partials.insert(String::from_str("META"), String::from_str(META_PARTIAL));
    partials.insert(String::from_str("META_EXTRA"), String::from_str(META_EXTRA_PARTIAL));
    proof {
        reveal_strlit("LINK");
        reveal_strlit("CSS");
        reveal_strlit("ICON");
        reveal_strlit("META");
        reveal_strlit("META_EXTRA");
        assert("LINK"@.len() == 4 && "CSS"@.len() == 3 && "ICON"@.len() == 4 && "META"@.len() == 4
            && "META_EXTRA"@.len() == 10);
        assert("LINK"@[0] != "ICON"@[0] && "LINK"@[0] != "META"@[0] && "ICON"@[0] != "META"@[0]);
        assert(partials.spec_paths() =~= inbuilt_names());
        assert(partials@ =~= inbuilt_texts());
    }
    register_all(registry, &partials, true)
}

} // verus!
