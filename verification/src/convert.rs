//! What is made of the answers of the style compiler, the minifiers and the
//! template engine.
//!
//! Those tools are run by the caller. Each function here takes what a tool
//! answered and decides how the conversion goes on.

use vstd::prelude::*;
use vstd::string::StringExecFns;
use crate::config::Port;
use crate::error::{Error, ErrorView};
use crate::server::files::{with_dev_script, with_dev_script_text};

verus! {

/// How the conversion of a style sheet goes on after it was compiled.
#[derive(Debug)]
pub enum CssStep {
    /// It is over, with this outcome.
    Finished(Result<String, Error>),
    /// This text is minified next.
    Minify(String),
}

/// A [`CssStep`] as contracts speak of it.
pub enum CssStepView {
    Finished(Result<Seq<char>, ErrorView>),
    Minify(Seq<char>),
}

/// The view of a result that carries a text.
pub open spec fn text_result_view(r: Result<String, Error>) -> Result<Seq<char>, ErrorView> {
    match r {
        Ok(text) => Ok(text@),
        Err(e) => Err(e@),
    }
}

/// The view of what a tool answered: a text, or the reason of its failure.
pub open spec fn answer_view(r: Result<String, String>) -> Result<Seq<char>, Seq<char>> {
    match r {
        Ok(text) => Ok(text@),
        Err(reason) => Err(reason@),
    }
}

impl View for CssStep {
    type V = CssStepView;

    open spec fn view(&self) -> CssStepView {
        match self {
            CssStep::Finished(r) => CssStepView::Finished(text_result_view(*r)),
            CssStep::Minify(css) => CssStepView::Minify(css@),
        }
    }
}

/// The step after the compiler answered: its failure ends the conversion
/// with an error that names the style sheet; its text is the result, unless
/// it is to be minified first.
pub open spec fn after_compile(
    name: Seq<char>,
    compiled: Result<Seq<char>, Seq<char>>,
    minify: bool,
) -> CssStepView {
    match compiled {
        Err(reason) => CssStepView::Finished(Err(ErrorView::ScssConvert(name, reason))),
        Ok(css) => if minify {
            CssStepView::Minify(css)
        } else {
            CssStepView::Finished(Ok(css))
        },
    }
}

/// Decides how the conversion of the style sheet `name` goes on once the
/// compiler has answered.
pub fn scss_compiled(name: &str, compiled: Result<String, String>, minify: bool) -> (step: CssStep)
    ensures
        step@ == after_compile(name@, answer_view(compiled), minify),
{
    match compiled {
        Err(reason) => CssStep::Finished(Err(Error::ScssConvert(String::from_str(name), reason))),
        Ok(css) => if minify {
            CssStep::Minify(css)
        } else {
            CssStep::Finished(Ok(css))
        },
    }
}

/// The outcome after the minifier answered: its text, or an error that
/// names the style sheet.
pub open spec fn after_minify(name: Seq<char>, minified: Result<Seq<char>, Seq<char>>) -> Result<
    Seq<char>,
    ErrorView,
> {
    match minified {
        Ok(css) => Ok(css),
        Err(reason) => Err(ErrorView::CssMinify(name, reason)),
    }
}

/// The outcome of the conversion of the style sheet `name` once the
/// minifier has answered.
pub fn css_minified(name: &str, minified: Result<String, String>) -> (r: Result<String, Error>)
    ensures
        text_result_view(r) == after_minify(name@, answer_view(minified)),
{
    match minified {
        Ok(css) => Ok(css),
        Err(reason) => Err(Error::CssMinify(String::from_str(name), reason)),
    }
}

/// The outcome after the template engine answered: its text, or an error
/// that names the template.
pub open spec fn after_render(template: Seq<char>, rendered: Result<Seq<char>, Seq<char>>)
    -> Result<Seq<char>, ErrorView> {
    match rendered {
        Ok(page) => Ok(page),
        Err(reason) => Err(ErrorView::RenderTemplate(template, reason)),
    }
}

/// The outcome of rendering `template` once the template engine has
/// answered.
pub fn template_rendered(template: &str, rendered: Result<String, String>) -> (r: Result<
    String,
    Error,
>)
    ensures
        text_result_view(r) == after_render(template@, answer_view(rendered)),
{
    match rendered {
        Ok(page) => Ok(page),
        Err(reason) => Err(Error::RenderTemplate(String::from_str(template), reason)),
    }
}

/// The outcome after the template engine took a template: nothing, or an
/// error that names the template.
pub open spec fn after_register(name: Seq<char>, registered: Result<(), Seq<char>>) -> Result<
    (),
    ErrorView,
> {
    match registered {
        Ok(_) => Ok(()),
        Err(reason) => Err(ErrorView::RegisterTemplate(name, reason)),
    }
}

/// The outcome of registering the template `name` once the template engine
/// has answered.
pub fn template_registered(name: &str, registered: Result<(), String>) -> (r: Result<(), Error>)
    ensures
        crate::error::unit_result_view(r) == after_register(
            name@,
            match registered {
                Ok(_) => Ok(()),
                Err(reason) => Err(reason@),
            },
        ),
{
    match registered {
        Ok(_) => Ok(()),
        Err(reason) => Err(Error::RegisterTemplate(String::from_str(name), reason)),
    }
}

/// The outcome after the template engine took a built-in partial: nothing,
/// or an error of the kind kept for the built-in partials.
pub open spec fn after_register_inbuilt(name: Seq<char>, registered: Result<(), Seq<char>>)
    -> Result<(), ErrorView> {
    match registered {
        Ok(_) => Ok(()),
        Err(reason) => Err(ErrorView::RegisterInbuiltTemplate(name, reason)),
    }
}

/// The outcome of registering the built-in partial `name` once the template
/// engine has answered.
pub fn partial_registered(name: &str, registered: Result<(), String>) -> (r: Result<(), Error>)
    ensures
        crate::error::unit_result_view(r) == after_register_inbuilt(
            name@,
            match registered {
                Ok(_) => Ok(()),
                Err(reason) => Err(reason@),
            },
        ),
{
    match registered {
        Ok(_) => Ok(()),
        Err(reason) => Err(Error::RegisterInbuiltTemplate(String::from_str(name), reason)),
    }
}

/// A rendered page as it is written: in development the script of the
/// reload channel is appended, after the page was minified.
pub open spec fn finished_page(page: Seq<char>, is_dev: bool, port_ws: Port) -> Seq<char> {
    if is_dev {
        with_dev_script_text(page, port_ws)
    } else {
        page
    }
}

/// Finishes a rendered, and perhaps minified, page.
pub fn finish_page(page: String, is_dev: bool, port_ws: Port) -> (written: String)
    ensures
        written@ == finished_page(page@, is_dev, port_ws),
{
    if is_dev {
        with_dev_script(page, port_ws)
    } else {
        page
    }
}

} // verus!
