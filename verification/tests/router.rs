use unreact::server::files::{dev_script, fallback_404, DEV_SCRIPT_RAW, FALLBACK_404_PAGE};
use unreact::server::router::{
    get_best_possible_file, paths_to_probe, possible_files_from_path, possible_path_suffixes,
    segments_of, server_router, OutputTree, Reply,
};

fn sample_tree() -> OutputTree {
    let mut tree = OutputTree::new();
    tree.insert("index.html");
    tree.insert("about.html");
    tree.insert("about/index.html");
    tree.insert("styles/site/style.css");
    tree
}

#[test]
fn root_resolves_to_index() {
    let tree = sample_tree();
    assert_eq!(get_best_possible_file(&tree, "/"), Some("//index.html".to_string()));
}

#[test]
fn extensionless_route_prefers_html_file() {
    let tree = sample_tree();
    assert_eq!(get_best_possible_file(&tree, "/about"), Some("/about.html".to_string()));
}

#[test]
fn styles_path_is_literal() {
    let tree = sample_tree();
    assert_eq!(possible_files_from_path("/styles/site/style.css"), vec!["/styles/site/style.css".to_string()]);
    assert_eq!(
        get_best_possible_file(&tree, "/styles/site/style.css"),
        Some("/styles/site/style.css".to_string())
    );
    assert_eq!(get_best_possible_file(&tree, "/styles/site/style"), None);
}

#[test]
fn missing_path_tries_three_candidates() {
    let tree = sample_tree();
    assert_eq!(
        possible_files_from_path("/missing"),
        vec!["/missing".to_string(), "/missing.html".to_string(), "/missing/index.html".to_string()]
    );
    assert_eq!(get_best_possible_file(&tree, "/missing"), None);
    assert_eq!(possible_path_suffixes("/missing"), vec!["", ".html", "/index.html"]);
    assert_eq!(possible_path_suffixes("/a.html"), vec![""]);
}

#[test]
fn fallback_page_holds_the_port() {
    let tree = sample_tree();
    let reply = server_router(&tree, "GET", "/missing", 3001);
    assert_eq!(reply.status(), 404);
    let expected = format!("{}\n\n{}", FALLBACK_404_PAGE, DEV_SCRIPT_RAW).replace("{{PORT}}", "3001");
    match reply {
        Reply::Fallback { body } => assert_eq!(body, expected),
        _ => panic!("expected the built-in page"),
    }
    assert_eq!(fallback_404(3001), expected);
    assert_eq!(dev_script(80), DEV_SCRIPT_RAW.replace("{{PORT}}", "80"));
    assert!(dev_script(65535).contains("ws://localhost:65535"));
}

#[test]
fn custom_not_found_page_takes_precedence() {
    let mut tree = sample_tree();
    tree.insert("404.html");
    let reply = server_router(&tree, "GET", "/missing", 3001);
    assert_eq!(reply.status(), 404);
    match reply {
        Reply::NotFoundPage { path } => assert_eq!(path, "/404.html"),
        _ => panic!("expected the site's own page"),
    }

    let mut tree = sample_tree();
    tree.insert("404/index.html");
    match server_router(&tree, "GET", "/missing", 3001) {
        Reply::NotFoundPage { path } => assert_eq!(path, "/404/index.html"),
        _ => panic!("expected the site's own page"),
    }
}

#[test]
fn only_get_is_answered_with_a_file() {
    let tree = sample_tree();
    let found = server_router(&tree, "GET", "/about", 3001);
    assert_eq!(found.status(), 200);
    match found {
        Reply::File { path } => assert_eq!(path, "/about.html"),
        _ => panic!("expected a file"),
    }
    for method in ["POST", "PUT", "DELETE", "HEAD", "get", ""] {
        let reply = server_router(&tree, method, "/about", 3001);
        assert_eq!(reply.status(), 404);
        assert!(matches!(reply, Reply::Fallback { .. }));
    }
}

#[test]
fn folder_index_answers_a_path_with_a_trailing_slash() {
    let mut tree = OutputTree::new();
    tree.insert(".devbuild/about/index.html");
    assert!(tree.contains("/.devbuild//about///index.html"));
    assert!(!tree.contains(".devbuild/about"));
    let mut tree = OutputTree::new();
    tree.insert("about/index.html");
    assert_eq!(get_best_possible_file(&tree, "/about/"), Some("/about//index.html".to_string()));
    assert_eq!(get_best_possible_file(&tree, "/about"), Some("/about/index.html".to_string()));
}

#[test]
fn literal_paths_get_no_suffix() {
    let mut tree = OutputTree::new();
    tree.insert("public/logo.html");
    tree.insert("page.html.html");
    tree.insert("public/logo");
    assert_eq!(possible_files_from_path("/public/logo"), vec!["/public/logo".to_string()]);
    assert_eq!(possible_files_from_path("/page.html"), vec!["/page.html".to_string()]);
    assert_eq!(get_best_possible_file(&tree, "/page.html"), None);
    assert_eq!(get_best_possible_file(&tree, "/public/logo"), Some("/public/logo".to_string()));
    assert_eq!(possible_path_suffixes("/styles/x"), vec![""]);
    assert_eq!(possible_path_suffixes("/public"), vec![""]);
}

#[test]
fn probe_list_holds_request_and_not_found_candidates() {
    assert_eq!(
        paths_to_probe("/about"),
        vec!["/about", "/about.html", "/about/index.html", "/404", "/404.html", "/404/index.html"]
    );
    assert_eq!(
        paths_to_probe("/styles/a.css"),
        vec!["/styles/a.css", "/404", "/404.html", "/404/index.html"]
    );
    assert_eq!(segments_of("//a/b//c/"), vec!["a", "b", "c"]);
    assert!(segments_of("///").is_empty());
}

#[test]
fn path_with_a_trailing_slash_is_no_file() {
    let mut tree = OutputTree::new();
    tree.insert("404.html");
    tree.insert("about/");
    assert!(!tree.contains("/404.html/"));
    assert!(!tree.contains("about"));
    assert!(!tree.contains(""));
    match server_router(&tree, "GET", "/404.html/", 3001) {
        Reply::NotFoundPage { path } => assert_eq!(path, "/404.html"),
        _ => panic!("expected the site's own page"),
    }
}

#[test]
fn no_placeholder_is_left_in_what_is_served() {
    for port in [0u16, 7, 80, 3001, 65535] {
        let page = fallback_404(port);
        let script = dev_script(port);
        assert!(!page.contains("{{PORT}}"));
        assert!(!script.contains("{{PORT}}"));
        assert!(page.starts_with(FALLBACK_404_PAGE));
        assert!(page.ends_with(&script));
        assert_eq!(page.len(), FALLBACK_404_PAGE.len() + 2 + script.len());
        let before = DEV_SCRIPT_RAW.find("{{PORT}}").unwrap();
        assert_eq!(&script[..before], &DEV_SCRIPT_RAW[..before]);
        assert!(script[before..].starts_with(&port.to_string()));
    }
}
