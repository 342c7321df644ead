//! What the tool decides about files and folders.
//!
//! Nothing here touches the disk. The caller looks at the disk and hands over
//! what it found: which source folders exist, and what a folder holds. The
//! library decides what that means.

use vstd::prelude::*;
use vstd::string::StringExecFns;
use crate::config::{Config, ConfigView};
use crate::error::{unit_result_view, Error, ErrorView};
use crate::filemap::FileMap;
use crate::text::{
    chars_of, empty_text, first_index_of, index_of_char, lemma_first_index_of,
};

verus! {

/// The name of a file without its extensions: what stands before the first
/// period, or all of it where there is none.
pub open spec fn filename_of(full_name: Seq<char>) -> Seq<char> {
    full_name.take(first_index_of(full_name, '.'))
}

/// The name of a file without its extensions.
pub fn get_filename(full_name: &str) -> (name: &str)
    ensures
        name@ == filename_of(full_name@),
{
    let chars = chars_of(full_name);
    let end = index_of_char(&chars, 0, '.');
    proof {
        assert(chars@.skip(0) =~= full_name@);
        lemma_first_index_of(full_name@, '.');
    }
    let name = full_name.substring_char(0, end);
    assert(name@ =~= full_name@.take(end as int));
    name
}

/// Which of the source folders of a site exist as directories.
#[derive(Clone, Copy, Debug, PartialEq, Eq, Structural)]
pub struct SourceFolders {
    pub templates: bool,
    pub public: bool,
    pub styles: bool,
}

/// The outcome of the check of the source folders: an error that names the
/// first folder that is missing, in the order templates, public, styles.
pub open spec fn source_folders_checked(config: ConfigView, found: SourceFolders) -> Result<
    (),
    ErrorView,
> {
    if !found.templates {
        Err(ErrorView::SourceDirectoryNotExist(config.templates))
    } else if !found.public {
        Err(ErrorView::SourceDirectoryNotExist(config.public))
    } else if !found.styles {
        Err(ErrorView::SourceDirectoryNotExist(config.styles))
    } else {
        Ok(())
    }
}

/// Fails where a source folder of the site is missing.
pub fn check_source_folders(config: &Config, found: SourceFolders) -> (r: Result<(), Error>)
    ensures
        unit_result_view(r) == source_folders_checked(config@, found),
{
    if !found.templates {
        Err(Error::SourceDirectoryNotExist(config.templates.clone()))
    } else if !found.public {
        Err(Error::SourceDirectoryNotExist(config.public.clone()))
    } else if !found.styles {
        Err(Error::SourceDirectoryNotExist(config.styles.clone()))
    } else {
        Ok(())
    }
}

/// The folder that holds the file of `path`: what stands before the last
/// slash, or nothing where there is no slash.
pub open spec fn parent_folder(path: Seq<char>) -> Seq<char>
    decreases path.len(),
{
    if path.len() == 0 {
        path
    } else if path.last() == '/' {
        path.drop_last()
    } else {
        parent_folder(path.drop_last())
    }
}

/// The folder that has to exist before the file of `path` can be written.
pub fn folder_for_file(path: &str) -> (folder: &str)
    ensures
        folder@ == parent_folder(path@),
{
    let chars = chars_of(path);
    let mut end: usize = chars.len();
    assert(path@.take(end as int) =~= path@);
    while end > 0 && chars[end - 1] != '/'
        invariant
            end <= chars.len(),
            chars@ == path@,
            parent_folder(path@.take(end as int)) == parent_folder(path@),
        decreases end,
    {
        proof {
            assert(path@.take(end as int).drop_last() =~= path@.take(end - 1));
        }
        end -= 1;
    }
    if end == 0 {
        let folder = path.substring_char(0, 0);
        assert(folder@ =~= path@.take(0));
        folder
    } else {
        proof {
            assert(path@.take(end as int).drop_last() =~= path@.take(end - 1));
        }
        let folder = path.substring_char(0, end - 1);
        assert(folder@ =~= path@.take(end - 1));
        folder
    }
}

/// What a folder holds, as far as the tool reads it.
#[derive(Debug)]
pub enum FolderEntry {
    /// A file: its name, and its text or the reason why it could not be
    /// read.
    File { name: String, content: Result<String, String> },
    /// A folder: its name, and what it holds or the reason why that could
    /// not be listed.
    Folder { name: String, children: Result<Vec<FolderEntry>, String> },
}

/// The path under which a folder is listed: the root, a slash, the way from
/// the root to the folder, and a slash.
pub open spec fn listed_path(root: Seq<char>, parent: Seq<char>) -> Seq<char> {
    root + "/"@ + parent + "/"@
}

/// The key of a file in the map: the way from the root to its folder, then
/// its name, without extensions where `strip` says so.
pub open spec fn entry_key(parent: Seq<char>, name: Seq<char>, strip: bool) -> Seq<char> {
    parent + (if strip {
        filename_of(name)
    } else {
        name
    })
}

/// The error for a folder that could not be listed. The walk that keys the
/// files by their names without extensions names the folder and the reason
/// apart; the walk that keeps the full names gives one message.
pub open spec fn unread_folder(path: Seq<char>, reason: Seq<char>, strip: bool) -> ErrorView {
    if strip {
        ErrorView::ReadDir(path, reason)
    } else {
        ErrorView::Generic("Could not read directory '"@ + path + "': "@ + reason)
    }
}

/// The error for a file that could not be read, in the same two forms.
pub open spec fn unread_file(path: Seq<char>, reason: Seq<char>, strip: bool) -> ErrorView {
    if strip {
        ErrorView::ReadFile(path, reason)
    } else {
        ErrorView::Generic("Could not read file '"@ + path + "': "@ + reason)
    }
}

/// The map after the files of `entries`, and of the folders below them,
/// were added to `map` in order. The first file or folder that could not be
/// read ends the walk with its error.
pub open spec fn loaded(
    map: Map<Seq<char>, Seq<char>>,
    root: Seq<char>,
    parent: Seq<char>,
    entries: Seq<FolderEntry>,
    strip: bool,
) -> Result<Map<Seq<char>, Seq<char>>, ErrorView>
    decreases entries,
{
    if entries.len() == 0 {
        Ok(map)
    } else {
        match loaded(map, root, parent, entries.drop_last(), strip) {
            Err(e) => Err(e),
            Ok(before) => match entries.last() {
                FolderEntry::File { name, content } => match content {
                    Ok(text) => Ok(before.insert(entry_key(parent, name@, strip), text@)),
                    Err(reason) => Err(
                        unread_file(listed_path(root, parent) + name@, reason@, strip),
                    ),
                },
                FolderEntry::Folder { name, children } => match children {
                    Ok(below) => loaded(before, root, parent + name@ + "/"@, below@, strip),
                    Err(reason) => Err(
                        unread_folder(listed_path(root, parent + name@ + "/"@), reason@, strip),
                    ),
                },
            },
        }
    }
}

/// The map of a whole folder, from what was found when the folder itself
/// was listed.
pub open spec fn loaded_folder(
    root: Seq<char>,
    listing: Result<Vec<FolderEntry>, String>,
    strip: bool,
) -> Result<Map<Seq<char>, Seq<char>>, ErrorView> {
    match listing {
        Ok(entries) => loaded(Map::empty(), root, Seq::empty(), entries@, strip),
        Err(reason) => Err(unread_folder(listed_path(root, Seq::empty()), reason@, strip)),
    }
}

/// Whether an error is one that a walk of the given kind gives: a read
/// error with path and reason for the walk that drops the extensions, an
/// error with one message for the walk that keeps the full names.
pub open spec fn is_walk_error(e: ErrorView, strip: bool) -> bool {
    if strip {
        e is ReadDir || e is ReadFile
    } else {
        e is Generic
    }
}

/// A walk fails with an error of its own kind only.
pub proof fn lemma_walk_fails_in_kind(
    map: Map<Seq<char>, Seq<char>>,
    root: Seq<char>,
    parent: Seq<char>,
    entries: Seq<FolderEntry>,
    strip: bool,
)
    ensures
        loaded(map, root, parent, entries, strip) matches Err(e) ==> is_walk_error(e, strip),
    decreases entries,
{
    if entries.len() > 0 {
        lemma_walk_fails_in_kind(map, root, parent, entries.drop_last(), strip);
        match loaded(map, root, parent, entries.drop_last(), strip) {
            Ok(before) => match entries.last() {
                FolderEntry::Folder { name, children } => match children {
                    Ok(below) => {
                        lemma_walk_fails_in_kind(
                            before,
                            root,
                            parent + name@ + "/"@,
                            below@,
                            strip,
                        );
                    },
                    Err(_) => {},
                },
                FolderEntry::File { .. } => {},
            },
            Err(_) => {},
        }
    }
}

/// Once a walk has failed, more entries do not change its outcome.
proof fn lemma_failure_ends_walk(
    map: Map<Seq<char>, Seq<char>>,
    root: Seq<char>,
    parent: Seq<char>,
    entries: Seq<FolderEntry>,
    k: int,
    strip: bool,
)
    requires
        0 <= k <= entries.len(),
        loaded(map, root, parent, entries.take(k), strip) is Err,
    ensures
        loaded(map, root, parent, entries, strip) == loaded(
            map,
            root,
            parent,
            entries.take(k),
            strip,
        ),
    decreases entries.len() - k,
{
    if k < entries.len() {
        assert(entries.take(k + 1).drop_last() =~= entries.take(k));
        lemma_failure_ends_walk(map, root, parent, entries, k + 1, strip);
    } else {
        assert(entries.take(k) =~= entries);
    }
}

/// The error for a folder that could not be listed.
fn folder_failure(path: String, reason: &str, strip: bool) -> (e: Error)
    ensures
        e@ == unread_folder(path@, reason@, strip),
{
    if strip {
        Error::ReadDir(path, String::from_str(reason))
    } else {
        let mut message = String::from_str("Could not read directory '");
        message.append(path.as_str());
        message.append("': ");
        message.append(reason);
        Error::Generic(message)
    }
}

/// The error for a file that could not be read.
fn file_failure(path: String, reason: &str, strip: bool) -> (e: Error)
    ensures
        e@ == unread_file(path@, reason@, strip),
{
    if strip {
        Error::ReadFile(path, String::from_str(reason))
    } else {
        let mut message = String::from_str("Could not read file '");
        message.append(path.as_str());
        message.append("': ");
        message.append(reason);
        Error::Generic(message)
    }
}

/// The path under which a folder is listed.
fn listed_path_of(root: &str, parent: &str) -> (path: String)
    ensures
        path@ == listed_path(root@, parent@),
{
    let mut path = String::from_str(root);
    path.append("/");
    path.append(parent);
    path.append("/");
    path
}

/// Adds the files of `entries`, and of the folders below them, to `map`.
fn load_entries(
    map: FileMap,
    root: &str,
    parent: &str,
    entries: &Vec<FolderEntry>,
    strip: bool,
) -> (r: Result<FileMap, Error>)
    requires
        map.wf(),
    ensures
        match r {
            Ok(m) => m.wf() && loaded(map@, root@, parent@, entries@, strip) == Ok::<
                Map<Seq<char>, Seq<char>>,
                ErrorView,
            >(m@),
            Err(e) => loaded(map@, root@, parent@, entries@, strip) == Err::<
                Map<Seq<char>, Seq<char>>,
                ErrorView,
            >(e@),
        },
    decreases entries,
{
    let ghost start = map@;
    let mut current = map;
    let mut i: usize = 0;
    assert(entries@.take(0) =~= Seq::<FolderEntry>::empty());
    while i < entries.len()
        invariant
            i <= entries.len(),
            current.wf(),
            start == map@,
            loaded(start, root@, parent@, entries@.take(i as int), strip) == Ok::<
                Map<Seq<char>, Seq<char>>,
                ErrorView,
            >(current@),
        decreases entries.len() - i,
    {
        proof {
            assert(entries@.take(i + 1).drop_last() =~= entries@.take(i as int));
            assert(entries@.take(i + 1).last() == entries@[i as int]);
        }
        match &entries[i] {
            FolderEntry::File { name, content } => match content {
                Ok(text) => {
                    let mut key = String::from_str(parent);
                    if strip {
                        key.append(get_filename(name.as_str()));
                    } else {
                        key.append(name.as_str());
                    }
                    current.insert(key, text.clone());
                },
                Err(reason) => {
                    let mut path = listed_path_of(root, parent);
                    path.append(name.as_str());
                    proof {
                        lemma_failure_ends_walk(
                            start,
                            root@,
                            parent@,
                            entries@,
                            i + 1,
                            strip,
                        );
                    }
                    return Err(file_failure(path, reason.as_str(), strip));
                },
            },
            FolderEntry::Folder { name, children } => {
                let mut below = String::from_str(parent);
                below.append(name.as_str());
                below.append("/");
                match children {
                    Ok(list) => {
                        match load_entries(current, root, below.as_str(), list, strip) {
                            Ok(m) => {
                                current = m;
                            },
                            Err(e) => {
                                proof {
                                    lemma_failure_ends_walk(
                                        start,
                                        root@,
                                        parent@,
                                        entries@,
                                        i + 1,
                                        strip,
                                    );
                                }
                                return Err(e);
                            },
                        }
                    },
                    Err(reason) => {
                        let path = listed_path_of(root, below.as_str());
                        proof {
                            lemma_failure_ends_walk(
                                start,
                                root@,
                                parent@,
                                entries@,
                                i + 1,
                                strip,
                            );
                        }
                        return Err(folder_failure(path, reason.as_str(), strip));
                    },
                }
            },
        }
        i += 1;
    }
    assert(entries@.take(entries@.len() as int) =~= entries@);
    Ok(current)
}

/// The map of a whole folder.
fn load_folder(root: &str, listing: &Result<Vec<FolderEntry>, String>, strip: bool) -> (r: Result<
    FileMap,
    Error,
>)
    ensures
        match r {
            Ok(m) => m.wf() && loaded_folder(root@, *listing, strip) == Ok::<
                Map<Seq<char>, Seq<char>>,
                ErrorView,
            >(m@),
            Err(e) => loaded_folder(root@, *listing, strip) == Err::<
                Map<Seq<char>, Seq<char>>,
                ErrorView,
            >(e@),
        },
{
    match listing {
        Ok(entries) => load_entries(FileMap::new(), root, empty_text(), entries, strip),
        Err(reason) => Err(folder_failure(listed_path_of(root, empty_text()), reason.as_str(), strip)),
    }
}

/// The files of a folder and of the folders below it, each under the way to
/// it from `folder` and its name without extensions. `listing` is what was
/// found when `folder` was read.
pub fn read_folder_recurse(folder: &str, listing: &Result<Vec<FolderEntry>, String>) -> (r: Result<
    FileMap,
    Error,
>)
    ensures
        match r {
            Ok(m) => m.wf() && loaded_folder(folder@, *listing, true) == Ok::<
                Map<Seq<char>, Seq<char>>,
                ErrorView,
            >(m@),
            Err(e) => loaded_folder(folder@, *listing, true) == Err::<
                Map<Seq<char>, Seq<char>>,
                ErrorView,
            >(e@) && (e@ is ReadDir || e@ is ReadFile),
        },
{
    proof {
        if let Ok(entries) = listing {
            lemma_walk_fails_in_kind(Map::empty(), folder@, Seq::empty(), entries@, true);
        }
    }
    load_folder(folder, listing, true)
}

/// The files of a folder and of the folders below it, each under the way to
/// it from `root` and its full name. `listing` is what was found when `root`
/// was read. A folder or a file that could not be read ends the work with a
/// generic error whose message names it.
pub fn load_filemap(root: &str, listing: &Result<Vec<FolderEntry>, String>) -> (r: Result<
    FileMap,
    Error,
>)
    ensures
        match r {
            Ok(m) => m.wf() && loaded_folder(root@, *listing, false) == Ok::<
                Map<Seq<char>, Seq<char>>,
                ErrorView,
            >(m@),
            Err(e) => loaded_folder(root@, *listing, false) == Err::<
                Map<Seq<char>, Seq<char>>,
                ErrorView,
            >(e@) && e@ is Generic,
        },
{
    proof {
        if let Ok(entries) = listing {
            lemma_walk_fails_in_kind(Map::empty(), root@, Seq::empty(), entries@, false);
        }
    }
    load_folder(root, listing, false)
}

} // verus!
