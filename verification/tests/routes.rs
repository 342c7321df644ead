use unreact::filemap::FileMap;
use unreact::routes::path::NOT_A_TEMPLATE;
use unreact::routes::Fragment::{Literal, Value};
use unreact::routes::{get_routes, Route, RoutePath};
use unreact::Error;

#[test]
fn routes_come_in_the_order_of_the_files() {
    let mut files = FileMap::new();
    files.insert("~.hbs".to_string(), "INDEX".to_string());
    files.insert("news/$article.hbs".to_string(), "ARTICLE".to_string());
    files.insert("404.hbs".to_string(), "NOT-FOUND".to_string());

    let routes = get_routes(&files).unwrap();

    assert_eq!(
        routes,
        vec![
            Route { path: RoutePath(vec![Literal("".to_string())]), template: "INDEX".to_string() },
            Route {
                path: RoutePath(vec![Literal("news".to_string()), Value("article".to_string())]),
                template: "ARTICLE".to_string()
            },
            Route {
                path: RoutePath(vec![Literal("404".to_string())]),
                template: "NOT-FOUND".to_string()
            },
        ]
    );
}

#[test]
fn one_bad_file_name_fails_all_routes() {
    let mut files = FileMap::new();
    files.insert("~.hbs".to_string(), "INDEX".to_string());
    files.insert("readme.md".to_string(), "text".to_string());
    assert!(matches!(get_routes(&files), Err(Error::Generic(m)) if m == NOT_A_TEMPLATE));
    assert_eq!(get_routes(&FileMap::new()).unwrap(), vec![]);
}

#[test]
fn file_map_replaces_and_keeps_order() {
    let mut files = FileMap::new();
    assert!(files.is_empty());
    files.insert("b".to_string(), "1".to_string());
    files.insert("a".to_string(), "2".to_string());
    files.insert("b".to_string(), "3".to_string());
    assert_eq!(files.len(), 2);
    assert!(!files.is_empty());
    assert_eq!(files.get("b").unwrap(), "3");
    assert_eq!(files.get("a").unwrap(), "2");
    assert!(files.get("c").is_none());
    assert!(files.contains_key("a"));
    assert!(!files.contains_key(""));
    assert_eq!(files.path_at(0).unwrap(), "b");
    assert_eq!(files.path_at(1).unwrap(), "a");
}
