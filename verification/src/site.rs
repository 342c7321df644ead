//! Where a site is served from and where its files are written.

use vstd::prelude::*;
use vstd::string::StringExecFns;
use crate::config::Port;
use crate::error::{unit_result_view, Error, ErrorView};
use crate::text::{
    chars_of, decimal, decimal_string, empty_text, first_index_of, index_of_char,
    lemma_first_index_of, same_text, split_on, split_on_char, trim_text, trimmed, views,
};

verus! {

/// The name of the route whose page is served when nothing else is found.
pub const NOT_FOUND_PAGE: &'static str = "404";

/// The address under which the pages of a site link to each other: in
/// development the local server, else the address given, and a slash at
/// the end either way.
pub open spec fn url_text(url: Seq<char>, is_dev: bool, port: Port) -> Seq<char> {
    if is_dev {
        "http://localhost:"@ + decimal(port as nat) + "/"@
    } else if url.len() > 0 && url.last() == '/' {
        url
    } else {
        url + "/"@
    }
}

/// The address of the site.
pub fn get_url(url: &str, is_dev: bool, port: Port) -> (address: String)
    ensures
        address@ == url_text(url@, is_dev, port),
{
    proof {
        reveal_strlit("/");
    }
    if is_dev {
        let mut address = String::from_str("http://localhost:");
        let digits = decimal_string(port as u64);
        address.append(digits.as_str());
        address.append("/");
        address
    } else {
        let chars = chars_of(url);
        let mut address = String::from_str(url);
        if chars.len() == 0 || chars[chars.len() - 1] != '/' {
            address.append("/");
        }
        address
    }
}

/// Whether the arguments of the program ask for development mode.
pub open spec fn asks_for_dev(args: Seq<Seq<char>>) -> bool {
    args.contains("--dev"@) || args.contains("-d"@)
}

/// Whether the arguments of the program ask for development mode: one of
/// them is `--dev` or `-d`.
pub fn is_dev_in(args: &Vec<String>) -> (b: bool)
    ensures
        b == asks_for_dev(views(args@)),
{
    let mut i: usize = 0;
    while i < args.len()
        invariant
            i <= args.len(),
            forall|j: int| 0 <= j < i ==> args@[j]@ != "--dev"@ && args@[j]@ != "-d"@,
        decreases args.len() - i,
    {
        if same_text(args[i].as_str(), "--dev") || same_text(args[i].as_str(), "-d") {
            assert(views(args@)[i as int] == args@[i as int]@);
            return true;
        }
        i += 1;
    }
    proof {
        let all = views(args@);
        if all.contains("--dev"@) {
            let j = choose|j: int| 0 <= j < all.len() && all[j] == "--dev"@;
            assert(args@[j]@ == "--dev"@);
        }
        if all.contains("-d"@) {
            let j = choose|j: int| 0 <= j < all.len() && all[j] == "-d"@;
            assert(args@[j]@ == "-d"@);
        }
    }
    false
}

/// Where a file is written: the folder that has to exist first, if any, and
/// the file itself.
#[derive(Debug, PartialEq, Eq)]
pub struct Output {
    pub folder: Option<String>,
    pub file: String,
}

/// An [`Output`] as contracts speak of it.
pub struct OutputView {
    pub folder: Option<Seq<char>>,
    pub file: Seq<char>,
}

impl View for Output {
    type V = OutputView;

    open spec fn view(&self) -> OutputView {
        OutputView {
            folder: match self.folder {
                Some(folder) => Some(folder@),
                None => None,
            },
            file: self.file@,
        }
    }
}

/// Where the page of a route is written: the not-found page directly into
/// the output folder, every other page as the index of a folder of its own.
pub open spec fn page_output_of(build: Seq<char>, name: Seq<char>) -> OutputView {
    if name == NOT_FOUND_PAGE@ {
        OutputView { folder: None, file: build + "/404.html"@ }
    } else {
        OutputView {
            folder: Some(build + "/"@ + name),
            file: build + "/"@ + name + "/index.html"@,
        }
    }
}

/// Where the page of the route `name` is written.
pub fn page_output(build: &str, name: &str) -> (output: Output)
    ensures
        output@ == page_output_of(build@, name@),
{
    if same_text(name, NOT_FOUND_PAGE) {
        let mut file = String::from_str(build);
        file.append("/404.html");
        Output { folder: None, file }
    } else {
        let mut folder = String::from_str(build);
        folder.append("/");
        folder.append(name);
        let mut file = folder.clone();
        file.append("/index.html");
        Output { folder: Some(folder), file }
    }
}

/// Where the style sheet `name` is written: as `style.css` in a folder of
/// its own under the styles folder of the output.
pub open spec fn style_output_of(build: Seq<char>, styles: Seq<char>, name: Seq<char>)
    -> OutputView {
    OutputView {
        folder: Some(build + "/"@ + styles + "/"@ + name),
        file: build + "/"@ + styles + "/"@ + name + "/style.css"@,
    }
}

/// Where the style sheet `name` is written.
pub fn style_output(build: &str, styles: &str, name: &str) -> (output: Output)
    ensures
        output@ == style_output_of(build@, styles@, name@),
{
    let mut folder = String::from_str(build);
    folder.append("/");
    folder.append(styles);
    folder.append("/");
    folder.append(name);
    let mut file = folder.clone();
    file.append("/style.css");
    Output { folder: Some(folder), file }
}

/// The folders of a fresh output folder: the folder itself, and in it one
/// for styles and one for public files.
pub open spec fn build_folders_of(build: Seq<char>) -> Seq<Seq<char>> {
    seq![build + "//"@, build + "/styles/"@, build + "/public/"@]
}

/// The folders that are created in a fresh output folder, in order.
pub fn build_folders(build: &str) -> (folders: Vec<String>)
    ensures
        views(folders@) == build_folders_of(build@),
{
    let mut folders: Vec<String> = Vec::new();
    folders.push(String::from_str(build).concat("//"));
    folders.push(String::from_str(build).concat("/styles/"));
    folders.push(String::from_str(build).concat("/public/"));
    assert(views(folders@) =~= build_folders_of(build@));
    folders
}

/// The file of the template `template` in the templates folder.
pub open spec fn template_file_of(templates: Seq<char>, template: Seq<char>) -> Seq<char> {
    templates + "/"@ + template + ".hbs"@
}

/// The file of the template `template`.
pub fn template_file(templates: &str, template: &str) -> (file: String)
    ensures
        file@ == template_file_of(templates@, template@),
{
    let mut file = String::from_str(templates);
    file.append("/");
    file.append(template);
    file.append(".hbs");
    file
}

/// Whether a route may name `template`: in development every name is taken
/// in, since the template may yet be written; elsewhere its file has to
/// exist.
pub open spec fn route_admitted(template: Seq<char>, is_dev: bool, file_exists: bool) -> Result<
    (),
    ErrorView,
> {
    if is_dev || file_exists {
        Ok(())
    } else {
        Err(ErrorView::TemplateNotExist(template))
    }
}

/// Decides whether a route may name `template`. `file_exists` says whether
/// the file of the template was found.
pub fn admit_route(template: &str, is_dev: bool, file_exists: bool) -> (r: Result<(), Error>)
    ensures
        unit_result_view(r) == route_admitted(template@, is_dev, file_exists),
{
    if is_dev || file_exists {
        Ok(())
    } else {
        Err(Error::TemplateNotExist(String::from_str(template)))
    }
}

/// The address on which the file server listens: the given port of this
/// machine, open to this machine only.
pub open spec fn loopback_address_of(port: Port) -> Seq<char> {
    "127.0.0.1:"@ + decimal(port as nat)
}

/// The address on which the file server listens.
pub fn loopback_address(port: Port) -> (address: String)
    ensures
        address@ == loopback_address_of(port),
{
    let mut address = String::from_str("127.0.0.1:");
    let digits = decimal_string(port as u64);
    address.append(digits.as_str());
    address
}

/// Whether a line of a manifest opens a section: it stands between square
/// brackets.
pub open spec fn is_section_header(line: Seq<char>) -> bool {
    line.len() > 0 && line[0] == '[' && line.last() == ']'
}

/// What stands after the first `=` of a line, trimmed; nothing where the
/// line holds no `=`.
pub open spec fn value_of_line(line: Seq<char>) -> Seq<char> {
    let at = first_index_of(line, '=');
    if at < line.len() {
        trimmed(line.skip(at + 1))
    } else {
        Seq::empty()
    }
}

/// What stands before the first `=` of a line, trimmed.
pub open spec fn key_of_line(line: Seq<char>) -> Seq<char> {
    trimmed(line.take(first_index_of(line, '=')))
}

/// A value between double quotes, without them; nothing for any other
/// value.
pub open spec fn unquoted(value: Seq<char>) -> Option<Seq<char>> {
    if value.len() >= 2 && value[0] == '"' && value.last() == '"' {
        Some(value.subrange(1, value.len() - 1))
    } else {
        None
    }
}

/// The name that the lines of a manifest give to the package. Only the
/// section `[package]` is read; `in_package` says whether the lines begin
/// inside it. The first line of that section whose key is `name` decides:
/// its value is the name if it stands between double quotes, and there is
/// no name if it does not.
pub open spec fn package_name_in_lines(lines: Seq<Seq<char>>, in_package: bool) -> Option<
    Seq<char>,
>
    decreases lines.len(),
{
    if lines.len() == 0 {
        None
    } else {
        let line = trimmed(lines[0]);
        let inside = if is_section_header(line) {
            line == "[package]"@
        } else {
            in_package
        };
        if inside && key_of_line(line) == "name"@ {
            unquoted(value_of_line(line))
        } else {
            package_name_in_lines(lines.drop_first(), inside)
        }
    }
}

/// The name that a manifest gives to the package.
pub open spec fn package_name_of(manifest: Seq<char>) -> Option<Seq<char>> {
    package_name_in_lines(split_on(manifest, '\n'), false)
}

/// The view of a name that may be missing.
pub open spec fn name_view(name: Option<String>) -> Option<Seq<char>> {
    match name {
        Some(name) => Some(name@),
        None => None,
    }
}

/// The name of the package in the text of a manifest.
pub fn package_name_in(manifest: &str) -> (name: Option<String>)
    ensures
        name_view(name) == package_name_of(manifest@),
{
    let lines = split_on_char(manifest, '\n');
    let ghost all = split_on(manifest@, '\n');
    let mut inside = false;
    let mut i: usize = 0;
    assert(all.skip(0) =~= all);
    while i < lines.len()
        invariant
            i <= lines.len(),
            views(lines@) == all,
            all == split_on(manifest@, '\n'),
            package_name_in_lines(all.skip(i as int), inside) == package_name_of(manifest@),
        decreases lines.len() - i,
    {
        proof {
            assert(all.skip(i as int)[0] == lines@[i as int]@);
            assert(all.skip(i as int).drop_first() =~= all.skip(i + 1));
        }
        let line = trim_text(lines[i].as_str());
        let chars = chars_of(line);
        if chars.len() > 0 && chars[0] == '[' && chars[chars.len() - 1] == ']' {
            inside = same_text(line, "[package]");
        }
        if inside {
            let at = index_of_char(&chars, 0, '=');
            proof {
                assert(chars@.skip(0) =~= line@);
                lemma_first_index_of(line@, '=');
            }
            let key = trim_text(line.substring_char(0, at));
            if same_text(key, "name") {
                let value = if at < chars.len() {
                    let rest = line.substring_char(at + 1, chars.len());
                    assert(rest@ =~= line@.skip(at + 1));
                    trim_text(rest)
                } else {
                    empty_text()
                };
                let quoted = chars_of(value);
                let count = quoted.len();
                if count >= 2 && quoted[0] == '"' && quoted[count - 1] == '"' {
                    let inner = value.substring_char(1, count - 1);
                    return Some(String::from_str(inner));
                }
                return None;
            }
        }
        i += 1;
    }
    None
}

} // verus!
