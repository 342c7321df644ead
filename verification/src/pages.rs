//! A site as it is put together before it is built: its configuration, its
//! pages by route, and the data that its templates see.

use vstd::prelude::*;
use vstd::string::StringExecFns;
use crate::config::{effective_config, Config, ConfigView};
use crate::error::{unit_result_view, Error, ErrorView};
use crate::files::{check_source_folders, source_folders_checked, SourceFolders};
use crate::routes::convert::{no_entries, object_entries, object_new, Object};
use crate::site::{admit_route, get_url, route_admitted, url_text, NOT_FOUND_PAGE};
use crate::text::empty_text;

verus! {

/// A page that will be rendered.
#[derive(Debug)]
pub enum Page {
    /// A text that is written as it is.
    Raw(String),
    /// A template, rendered with data.
    Template { template: String, data: Object },
}

/// A [`Page`] as contracts speak of it.
pub enum PageView {
    Raw(Seq<char>),
    Template { template: Seq<char>, data: Object },
}

impl View for Page {
    type V = PageView;

    open spec fn view(&self) -> PageView {
        match self {
            Page::Raw(text) => PageView::Raw(text@),
            Page::Template { template, data } => PageView::Template {
                template: template@,
                data: *data,
            },
        }
    }
}

/// A page and the route under which it is served.
#[derive(Debug)]
pub struct RoutedPage {
    pub route: String,
    pub page: Page,
}

/// A [`RoutedPage`] as contracts speak of it.
pub struct RoutedPageView {
    pub route: Seq<char>,
    pub page: PageView,
}

impl View for RoutedPage {
    type V = RoutedPageView;

    open spec fn view(&self) -> RoutedPageView {
        RoutedPageView { route: self.route@, page: self.page@ }
    }
}

/// The views of a sequence of routed pages.
pub open spec fn page_views(pages: Seq<RoutedPage>) -> Seq<RoutedPageView> {
    pages.map_values(|p: RoutedPage| p@)
}

/// The index of the first page with the route `route`, or the number of
/// pages where there is none.
pub open spec fn index_of_route(pages: Seq<RoutedPageView>, route: Seq<char>) -> int
    decreases pages.len(),
{
    if pages.len() == 0 {
        0
    } else if pages[0].route == route {
        0
    } else {
        1 + index_of_route(pages.drop_first(), route)
    }
}

/// The pages after `page` was put under `route`: in place of the page that
/// had the route, or at the end where no page had it.
pub open spec fn with_page(pages: Seq<RoutedPageView>, route: Seq<char>, page: PageView) -> Seq<
    RoutedPageView,
> {
    let at = index_of_route(pages, route);
    if 0 <= at < pages.len() {
        pages.update(at, RoutedPageView { route, page })
    } else {
        pages.push(RoutedPageView { route, page })
    }
}

/// `index_of_route` is an index of a page with the route, with no such page
/// before it, or the number of pages.
proof fn lemma_index_of_route(pages: Seq<RoutedPageView>, route: Seq<char>, k: int)
    requires
        0 <= k <= pages.len(),
        forall|j: int| 0 <= j < k ==> pages[j].route != route,
        k < pages.len() ==> pages[k].route == route,
    ensures
        index_of_route(pages, route) == k,
    decreases k,
{
    if k > 0 {
        let rest = pages.drop_first();
        assert forall|j: int| 0 <= j < k - 1 implies rest[j].route != route by {
            assert(rest[j] == pages[j + 1]);
        }
        if k < pages.len() {
            assert(rest[k - 1] == pages[k]);
        }
        lemma_index_of_route(rest, route, k - 1);
    }
}

/// A site before it is built.
pub struct Unreact<'a> {
    config: Config,
    pages: Vec<RoutedPage>,
    globals: Object,
    is_dev: bool,
    url: String,
    registry: handlebars::Handlebars<'a>,
}

/// An [`Unreact`] as contracts speak of it. The registry of the template
/// engine is the one that the site was made with: the site carries it and
/// never changes it.
pub struct UnreactView<'a> {
    pub config: ConfigView,
    pub pages: Seq<RoutedPageView>,
    pub globals: Object,
    pub is_dev: bool,
    pub url: Seq<char>,
    pub registry: handlebars::Handlebars<'a>,
}

impl<'a> View for Unreact<'a> {
    type V = UnreactView<'a>;

    closed spec fn view(&self) -> UnreactView<'a> {
        UnreactView {
            config: self.config@,
            pages: page_views(self.pages@),
            globals: self.globals,
            is_dev: self.is_dev,
            url: self.url@,
            registry: self.registry,
        }
    }
}

impl<'a> Unreact<'a> {
    /// A site without pages and without data. `found` says which source
    /// folders exist, and `registry` is the template engine that the site
    /// will render with. A missing source folder is an error.
    pub fn new(
        config: Config,
        is_dev: bool,
        url: &str,
        found: SourceFolders,
        registry: handlebars::Handlebars<'a>,
    ) -> (r: Result<Self, Error>)
        ensures
            match r {
                Ok(site) => {
                    &&& source_folders_checked(effective_config(config@, is_dev), found) is Ok
                    &&& site@.config == effective_config(config@, is_dev)
                    &&& site@.pages == Seq::<RoutedPageView>::empty()
                    &&& object_entries(site@.globals) == no_entries()
                    &&& site@.is_dev == is_dev
                    &&& site@.url == url_text(url@, is_dev, config.port)
                    &&& site@.registry == registry
                },
                Err(e) => source_folders_checked(effective_config(config@, is_dev), found) == Err::<
                    (),
                    ErrorView,
                >(e@),
            },
    {
        let config = config.effective(is_dev);
        match check_source_folders(&config, found) {
            Ok(_) => {},
            Err(e) => {
                return Err(e);
            },
        }
        let url = get_url(url, is_dev, config.port);
        let site = Unreact {
            config,
            pages: Vec::new(),
            globals: object_new(),
            is_dev,
            url,
            registry,
        };
        assert(page_views(site.pages@) =~= Seq::<RoutedPageView>::empty());
        Ok(site)
    }

    /// Sets the data that every template sees.
    pub fn globalize(&mut self, data: Object)
        ensures
            final(self)@ == (UnreactView { globals: data, ..old(self)@ }),
    {
        self.globals = data;
    }

    /// Puts `page` under `route`, in place of the page that had the route.
    fn put(&mut self, route: &str, page: Page)
        ensures
            final(self)@ == (UnreactView {
                pages: with_page(old(self)@.pages, route@, page@),
                ..old(self)@
            }),
    {
        let ghost before = page_views(self.pages@);
        let mut i: usize = 0;
        while i < self.pages.len()
            invariant
                i <= self.pages.len(),
                *self == *old(self),
                before == page_views(self.pages@),
                forall|j: int| 0 <= j < i ==> before[j].route != route@,
            decreases self.pages.len() - i,
        {
            if crate::text::same_text(self.pages[i].route.as_str(), route) {
                proof {
                    assert(before[i as int].route == route@);
                    lemma_index_of_route(before, route@, i as int);
                }
                self.pages.set(i, RoutedPage { route: String::from_str(route), page });
                assert(page_views(self.pages@) =~= before.update(
                    i as int,
                    RoutedPageView { route: route@, page: page@ },
                ));
                return ;
            }
            i += 1;
        }
        proof {
            lemma_index_of_route(before, route@, before.len() as int);
        }
        self.pages.push(RoutedPage { route: String::from_str(route), page });
        assert(page_views(self.pages@) =~= before.push(
            RoutedPageView { route: route@, page: page@ },
        ));
    }

    /// Adds a route that renders `template` with `data`. Outside
    /// development the file of the template has to exist: `file_exists`
    /// says whether it does. A route that is refused changes nothing.
    pub fn route(&mut self, path: &str, template: &str, data: Object, file_exists: bool) -> (r:
        Result<(), Error>)
        ensures
            unit_result_view(r) == route_admitted(template@, old(self)@.is_dev, file_exists),
            r is Ok ==> final(self)@ == (UnreactView {
                pages: with_page(
                    old(self)@.pages,
                    path@,
                    PageView::Template { template: template@, data },
                ),
                ..old(self)@
            }),
            r is Err ==> final(self)@ == old(self)@,
    {
        match admit_route(template, self.is_dev, file_exists) {
            Ok(_) => {},
            Err(e) => {
                return Err(e);
            },
        }
        self.put(path, Page::Template { template: String::from_str(template), data });
        Ok(())
    }

    /// Adds a route that serves `content` as it is.
    pub fn route_raw(&mut self, path: &str, content: String)
        ensures
            final(self)@ == (UnreactView {
                pages: with_page(old(self)@.pages, path@, PageView::Raw(content@)),
                ..old(self)@
            }),
    {
        self.put(path, Page::Raw(content));
    }

    /// Adds the route of the index page: the route without a name.
    pub fn index(&mut self, template: &str, data: Object, file_exists: bool) -> (r: Result<
        (),
        Error,
    >)
        ensures
            unit_result_view(r) == route_admitted(template@, old(self)@.is_dev, file_exists),
            r is Ok ==> final(self)@ == (UnreactView {
                pages: with_page(
                    old(self)@.pages,
                    Seq::empty(),
                    PageView::Template { template: template@, data },
                ),
                ..old(self)@
            }),
            r is Err ==> final(self)@ == old(self)@,
    {
        self.route(empty_text(), template, data, file_exists)
    }

    /// Adds the route of the not-found page.
    pub fn not_found(&mut self, template: &str, data: Object, file_exists: bool) -> (r: Result<
        (),
        Error,
    >)
        ensures
            unit_result_view(r) == route_admitted(template@, old(self)@.is_dev, file_exists),
            r is Ok ==> final(self)@ == (UnreactView {
                pages: with_page(
                    old(self)@.pages,
                    NOT_FOUND_PAGE@,
                    PageView::Template { template: template@, data },
                ),
                ..old(self)@
            }),
            r is Err ==> final(self)@ == old(self)@,
    {
        self.route(NOT_FOUND_PAGE, template, data, file_exists)
    }

    /// The configuration with which the site is built.
    pub fn config(&self) -> (config: &Config)
        ensures
            config@ == self@.config,
    {
        &self.config
    }

    /// Whether the site is built for development.
    pub fn is_dev(&self) -> (b: bool)
        ensures
            b == self@.is_dev,
    {
        self.is_dev
    }

    /// The address under which the pages link to each other.
    pub fn url(&self) -> (url: &str)
        ensures
            url@ == self@.url,
    {
        self.url.as_str()
    }

    /// The data that every template sees.
    pub fn globals(&self) -> (globals: &Object)
        ensures
            *globals == self@.globals,
    {
        &self.globals
    }

    /// The template engine of the site: the registry that the site was made
    /// with.
    pub fn handlebars(&self) -> (registry: &handlebars::Handlebars<'a>)
        ensures
            *registry == self@.registry,
    {
        &self.registry
    }

    /// The number of pages.
    pub fn page_count(&self) -> (n: usize)
        ensures
            n == self@.pages.len(),
    {
        self.pages.len()
    }

    /// The page at index `i`, in the order in which the routes came in.
    pub fn page_at(&self, i: usize) -> (found: Option<&RoutedPage>)
        ensures
            match found {
                Some(page) => i < self@.pages.len() && page@ == self@.pages[i as int],
                None => i >= self@.pages.len(),
            },
    {
        if i < self.pages.len() {
            Some(&self.pages[i])
        } else {
            None
        }
    }
}

} // verus!
