use unreact::files::{
    check_source_folders, folder_for_file, get_filename, load_filemap, read_folder_recurse,
    FolderEntry, SourceFolders,
};
use unreact::{Config, Error};

const GLOBAL_SCSS: &str = "body {\n  margin: 0;\n}\n";
const STYLISH_SCSS: &str = "$accent: teal;\n\nh1 {\n  color: $accent;\n}\n";

fn styles_listing() -> Result<Vec<FolderEntry>, String> {
    Ok(vec![
        FolderEntry::File { name: "global.scss".to_string(), content: Ok(GLOBAL_SCSS.to_string()) },
        FolderEntry::Folder {
            name: "scoped".to_string(),
            children: Ok(vec![FolderEntry::File {
                name: "stylish.scss".to_string(),
                content: Ok(STYLISH_SCSS.to_string()),
            }]),
        },
    ])
}

#[test]
fn check_source_folders_works() {
    let mut config = Config {
        build: "tests/assets/build".to_string(),
        templates: "tests/assets/templates".to_string(),
        styles: "tests/assets/styles".to_string(),
        public: "tests/assets/public".to_string(),
        ..Config::default()
    };
    let all = SourceFolders { templates: true, public: true, styles: true };

    assert!(check_source_folders(&config, all).is_ok());

    config.templates = "what".to_string();
    assert!(matches!(
        check_source_folders(&config, SourceFolders { templates: false, ..all }),
        Err(Error::SourceDirectoryNotExist(name)) if name == "what",
    ));
}

#[test]
fn check_source_folders_names_the_first_missing_folder() {
    let config = Config::default();
    let none = SourceFolders { templates: false, public: false, styles: false };
    assert!(matches!(
        check_source_folders(&config, none),
        Err(Error::SourceDirectoryNotExist(name)) if name == "templates",
    ));
    assert!(matches!(
        check_source_folders(&config, SourceFolders { templates: true, ..none }),
        Err(Error::SourceDirectoryNotExist(name)) if name == "public",
    ));
    assert!(matches!(
        check_source_folders(&config, SourceFolders { templates: true, public: true, styles: false }),
        Err(Error::SourceDirectoryNotExist(name)) if name == "styles",
    ));
}

#[test]
fn read_folder_recurse_works() {
    let files = read_folder_recurse("tests/assets/styles/", &styles_listing()).unwrap();

    assert_eq!(files.len(), 2);
    assert_eq!(files.get("global").unwrap(), GLOBAL_SCSS);
    assert_eq!(files.get("scoped/stylish").unwrap(), STYLISH_SCSS);
}

#[test]
fn load_filemap_keeps_full_names() {
    let files = load_filemap("assets/routes", &styles_listing()).unwrap();
    assert_eq!(files.len(), 2);
    assert_eq!(files.get("global.scss").unwrap(), GLOBAL_SCSS);
    assert_eq!(files.get("scoped/stylish.scss").unwrap(), STYLISH_SCSS);
    assert!(files.get("global").is_none());
    assert_eq!(files.path_at(0).unwrap(), "global.scss");
    assert_eq!(files.path_at(1).unwrap(), "scoped/stylish.scss");
    assert!(files.path_at(2).is_none());
}

#[test]
fn read_folder_recurse_reports_the_first_failure() {
    let unreadable_root: Result<Vec<FolderEntry>, String> = Err("denied".to_string());
    assert!(matches!(
        read_folder_recurse("styles", &unreadable_root),
        Err(Error::ReadDir(path, reason)) if path == "styles//" && reason == "denied",
    ));

    let listing = Ok(vec![
        FolderEntry::File { name: "a.scss".to_string(), content: Ok("a".to_string()) },
        FolderEntry::Folder { name: "deep".to_string(), children: Err("gone".to_string()) },
        FolderEntry::File { name: "b.scss".to_string(), content: Err("never read".to_string()) },
    ]);
    assert!(matches!(
        read_folder_recurse("styles", &listing),
        Err(Error::ReadDir(path, reason)) if path == "styles/deep//" && reason == "gone",
    ));

    let listing = Ok(vec![FolderEntry::Folder {
        name: "deep".to_string(),
        children: Ok(vec![FolderEntry::File {
            name: "b.scss".to_string(),
            content: Err("binary".to_string()),
        }]),
    }]);
    assert!(matches!(
        read_folder_recurse("styles", &listing),
        Err(Error::ReadFile(path, reason)) if path == "styles/deep//b.scss" && reason == "binary",
    ));
}

#[test]
fn later_file_replaces_earlier_one_of_the_same_name() {
    let listing = Ok(vec![
        FolderEntry::File { name: "page.hbs".to_string(), content: Ok("first".to_string()) },
        FolderEntry::File { name: "page.html".to_string(), content: Ok("second".to_string()) },
    ]);
    let files = read_folder_recurse("templates", &listing).unwrap();
    assert_eq!(files.len(), 1);
    assert_eq!(files.get("page").unwrap(), "second");
}

#[test]
fn get_filename_works() {
    assert_eq!(get_filename("abc"), "abc");
    assert_eq!(get_filename("abc.txt"), "abc");
    assert_eq!(get_filename("abc.def.txt"), "abc");
    assert_eq!(get_filename(""), "");
}

#[test]
fn get_filename_counts_characters_not_bytes() {
    assert_eq!(get_filename("públic.scss"), "públic");
    assert_eq!(get_filename(".hidden"), "");
}

#[test]
fn folder_for_file_drops_the_last_name() {
    assert_eq!(folder_for_file("build/about/index.html"), "build/about");
    assert_eq!(folder_for_file("index.html"), "");
    assert_eq!(folder_for_file("build/"), "build");
    assert_eq!(folder_for_file(""), "");
}

#[test]
fn load_filemap_reports_failures_with_one_message() {
    let unreadable_root: Result<Vec<FolderEntry>, String> = Err("denied".to_string());
    assert!(matches!(
        load_filemap("assets/routes", &unreadable_root),
        Err(Error::Generic(m)) if m == "Could not read directory 'assets/routes//': denied",
    ));

    let listing = Ok(vec![FolderEntry::Folder {
        name: "deep".to_string(),
        children: Ok(vec![
            FolderEntry::File { name: "b.hbs".to_string(), content: Err("binary".to_string()) },
            FolderEntry::Folder { name: "later".to_string(), children: Err("gone".to_string()) },
        ]),
    }]);
    assert!(matches!(
        load_filemap("assets/routes", &listing),
        Err(Error::Generic(m)) if m == "Could not read file 'assets/routes/deep//b.hbs': binary",
    ));

    let listing = Ok(vec![FolderEntry::Folder {
        name: "deep".to_string(),
        children: Err("gone".to_string()),
    }]);
    assert!(matches!(
        load_filemap("assets/routes", &listing),
        Err(Error::Generic(m)) if m == "Could not read directory 'assets/routes/deep//': gone",
    ));
}
