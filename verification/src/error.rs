//! The errors of the library.

use vstd::prelude::*;
use vstd::string::StringExecFns;
use crate::text::{decimal, decimal_string};

verus! {

/// What can go wrong while a site is built or served.
#[derive(Debug)]
pub enum Error {
    /// A failure that has only a message.
    Generic(String),
    /// A source folder of the site is no directory.
    SourceDirectoryNotExist(String),
    /// A folder that should be watched for changes could not be watched.
    WatchDirectoryNotExist(String),
    /// A server could not listen on its port.
    PortUnavailable(u16),
    /// A route names a template for which there is no file.
    TemplateNotExist(String),
    /// The children of a directory could not be listed: the directory and
    /// the reason.
    ReadDir(String, String),
    /// A file could not be read: the file and the reason.
    ReadFile(String, String),
    /// A style sheet could not be converted: its name and the reason.
    ScssConvert(String, String),
    /// A converted style sheet could not be minified: its name and the
    /// reason.
    CssMinify(String, String),
    /// A template could not be registered: its name and the reason.
    RegisterTemplate(String, String),
    /// A built-in partial could not be registered: its name and the reason.
    RegisterInbuiltTemplate(String, String),
    /// A template could not be rendered: its name and the reason.
    RenderTemplate(String, String),
}

/// An [`Error`] as contracts speak of it.
pub enum ErrorView {
    Generic(Seq<char>),
    SourceDirectoryNotExist(Seq<char>),
    WatchDirectoryNotExist(Seq<char>),
    PortUnavailable(u16),
    TemplateNotExist(Seq<char>),
    ReadDir(Seq<char>, Seq<char>),
    ReadFile(Seq<char>, Seq<char>),
    ScssConvert(Seq<char>, Seq<char>),
    CssMinify(Seq<char>, Seq<char>),
    RegisterTemplate(Seq<char>, Seq<char>),
    RegisterInbuiltTemplate(Seq<char>, Seq<char>),
    RenderTemplate(Seq<char>, Seq<char>),
}

impl View for Error {
    type V = ErrorView;

    open spec fn view(&self) -> ErrorView {
        match self {
            Error::Generic(m) => ErrorView::Generic(m@),
            Error::SourceDirectoryNotExist(d) => ErrorView::SourceDirectoryNotExist(d@),
            Error::WatchDirectoryNotExist(d) => ErrorView::WatchDirectoryNotExist(d@),
            Error::PortUnavailable(p) => ErrorView::PortUnavailable(*p),
            Error::TemplateNotExist(t) => ErrorView::TemplateNotExist(t@),
            Error::ReadDir(p, r) => ErrorView::ReadDir(p@, r@),
            Error::ReadFile(p, r) => ErrorView::ReadFile(p@, r@),
            Error::ScssConvert(n, r) => ErrorView::ScssConvert(n@, r@),
            Error::CssMinify(n, r) => ErrorView::CssMinify(n@, r@),
            Error::RegisterTemplate(n, r) => ErrorView::RegisterTemplate(n@, r@),
            Error::RegisterInbuiltTemplate(n, r) => ErrorView::RegisterInbuiltTemplate(n@, r@),
            Error::RenderTemplate(n, r) => ErrorView::RenderTemplate(n@, r@),
        }
    }
}

/// The words with which the message of an error begins.
pub open spec fn message_head(error: ErrorView) -> Seq<char> {
    match error {
        ErrorView::Generic(_) => "Generic Error: "@,
        ErrorView::SourceDirectoryNotExist(_) => "Source directory does not exist: "@,
        ErrorView::WatchDirectoryNotExist(_) => "Could not watch folder: "@,
        ErrorView::PortUnavailable(_) => "Could not listen on port: "@,
        ErrorView::TemplateNotExist(_) => "Template does not exist: "@,
        ErrorView::ReadDir(_, _) => "Could not read directory: "@,
        ErrorView::ReadFile(_, _) => "Could not read file: "@,
        ErrorView::ScssConvert(_, _) => "Could not convert style sheet: "@,
        ErrorView::CssMinify(_, _) => "Could not minify style sheet: "@,
        ErrorView::RegisterTemplate(_, _) => "Could not register template: "@,
        ErrorView::RegisterInbuiltTemplate(_, _) => "Could not register built-in template: "@,
        ErrorView::RenderTemplate(_, _) => "Could not render template: "@,
    }
}

/// What the message of an error says after its first words: the subject,
/// and the reason where there is one.
pub open spec fn message_tail(error: ErrorView) -> Seq<char> {
    match error {
        ErrorView::Generic(m) => m,
        ErrorView::SourceDirectoryNotExist(d) => d,
        ErrorView::WatchDirectoryNotExist(d) => d,
        ErrorView::PortUnavailable(p) => decimal(p as nat),
        ErrorView::TemplateNotExist(t) => t,
        ErrorView::ReadDir(p, r) => p + ": "@ + r,
        ErrorView::ReadFile(p, r) => p + ": "@ + r,
        ErrorView::ScssConvert(n, r) => n + ": "@ + r,
        ErrorView::CssMinify(n, r) => n + ": "@ + r,
        ErrorView::RegisterTemplate(n, r) => n + ": "@ + r,
        ErrorView::RegisterInbuiltTemplate(n, r) => n + ": "@ + r,
        ErrorView::RenderTemplate(n, r) => n + ": "@ + r,
    }
}

/// The message of an error.
pub open spec fn message_text(error: ErrorView) -> Seq<char> {
    message_head(error) + message_tail(error)
}

fn subject_and_reason(head: &str, subject: &str, reason: &str) -> (text: String)
    ensures
        text@ == head@ + (subject@ + ": "@ + reason@),
{
    let mut text = String::from_str(head);
    text.append(subject);
    text.append(": ");
    text.append(reason);
    assert(text@ =~= head@ + (subject@ + ": "@ + reason@));
    text
}

impl Error {
    /// The message of the error, for a log or a terminal.
    pub fn message(&self) -> (text: String)
        ensures
            text@ == message_text(self@),
    {
        match self {
            Error::Generic(m) => String::from_str("Generic Error: ").concat(m.as_str()),
            Error::SourceDirectoryNotExist(d) => String::from_str(
                "Source directory does not exist: ",
            ).concat(d.as_str()),
            Error::WatchDirectoryNotExist(d) => String::from_str("Could not watch folder: ").concat(
                d.as_str(),
            ),
            Error::PortUnavailable(p) => {
                let port = decimal_string(*p as u64);
                String::from_str("Could not listen on port: ").concat(port.as_str())
            },
            Error::TemplateNotExist(t) => String::from_str("Template does not exist: ").concat(
                t.as_str(),
            ),
            Error::ReadDir(p, r) => subject_and_reason(
                "Could not read directory: ",
                p.as_str(),
                r.as_str(),
            ),
            Error::ReadFile(p, r) => subject_and_reason(
                "Could not read file: ",
                p.as_str(),
                r.as_str(),
            ),
            Error::ScssConvert(n, r) => subject_and_reason(
                "Could not convert style sheet: ",
                n.as_str(),
                r.as_str(),
            ),
            Error::CssMinify(n, r) => subject_and_reason(
                "Could not minify style sheet: ",
                n.as_str(),
                r.as_str(),
            ),
            Error::RegisterTemplate(n, r) => subject_and_reason(
                "Could not register template: ",
                n.as_str(),
                r.as_str(),
            ),
            Error::RegisterInbuiltTemplate(n, r) => subject_and_reason(
                "Could not register built-in template: ",
                n.as_str(),
                r.as_str(),
            ),
            Error::RenderTemplate(n, r) => subject_and_reason(
                "Could not render template: ",
                n.as_str(),
                r.as_str(),
            ),
        }
    }
}

/// The view of a result whose error is an [`Error`] and whose value has a
/// view of its own.
pub open spec fn result_view<T: View>(r: Result<T, Error>) -> Result<T::V, ErrorView> {
    match r {
        Ok(v) => Ok(v@),
        Err(e) => Err(e@),
    }
}

/// The view of a result that carries an [`Error`] or nothing.
pub open spec fn unit_result_view(r: Result<(), Error>) -> Result<(), ErrorView> {
    match r {
        Ok(_) => Ok(()),
        Err(e) => Err(e@),
    }
}

} // verus!
