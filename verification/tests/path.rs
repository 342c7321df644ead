use unreact::routes::path::{
    remove_hbs_extension, replace_index_ident, route_path_from_filename, split_fragments,
    MISPLACED_INDEX, MISPLACED_VALUE, NOT_A_TEMPLATE,
};
use unreact::routes::Fragment::{Literal, Value};
use unreact::routes::RoutePath;
use unreact::Error;

#[test]
fn route_path_from_filename_works() {
    let zero = vec!["~.hbs", "404.hbs", "hello/~.hbs", "hello/there.hbs", "news/$article.hbs"];

    let mapped: Vec<_> = zero.into_iter().flat_map(route_path_from_filename).collect();

    assert_eq!(
        mapped,
        vec![
            RoutePath(vec![Literal("".to_string())]),
            RoutePath(vec![Literal("404".to_string())]),
            RoutePath(vec![Literal("hello".to_string())]),
            RoutePath(vec![Literal("hello".to_string()), Literal("there".to_string())]),
            RoutePath(vec![Literal("news".to_string()), Value("article".to_string())]),
        ],
    );
}

#[test]
fn remove_hbs_extension_works() {
    let initial = vec!["~.hbs", "404.hbs", "hello/~.hbs", "hello/there.hbs", "news/$article.hbs"];

    let mapped: Vec<_> = initial.into_iter().flat_map(remove_hbs_extension).collect();

    assert_eq!(mapped, vec!["~", "404", "hello/~", "hello/there", "news/$article"],);
}

#[test]
fn replace_index_ident_works() {
    let initial = vec!["~", "404", "hello/~", "hello/there", "news/$article"];

    let mapped: Vec<_> = initial.into_iter().flat_map(replace_index_ident).collect();

    assert_eq!(mapped, vec!["", "404", "hello", "hello/there", "news/$article"],);
}

#[test]
fn split_fragments_works() {
    let initial = vec!["", "404", "hello", "hello/there", "news/$article"];

    let mapped: Vec<_> = initial.into_iter().flat_map(split_fragments).collect();

    assert_eq!(
        mapped,
        vec![
            vec![Literal("".to_string())],
            vec![Literal("404".to_string())],
            vec![Literal("hello".to_string())],
            vec![Literal("hello".to_string()), Literal("there".to_string())],
            vec![Literal("news".to_string()), Value("article".to_string())],
        ],
    );
}

fn generic_message<T>(r: Result<T, Error>) -> String {
    match r {
        Err(Error::Generic(message)) => message,
        _ => panic!("expected a generic error"),
    }
}

#[test]
fn file_without_hbs_extension_is_refused() {
    assert_eq!(generic_message(remove_hbs_extension("page.html")), NOT_A_TEMPLATE);
    assert_eq!(generic_message(remove_hbs_extension("hbs")), NOT_A_TEMPLATE);
    assert_eq!(generic_message(route_path_from_filename("page")), NOT_A_TEMPLATE);
    assert_eq!(remove_hbs_extension(".hbs").unwrap(), "");
}

#[test]
fn misplaced_index_ident_is_refused() {
    assert_eq!(generic_message(replace_index_ident("~/hello")), MISPLACED_INDEX);
    assert_eq!(generic_message(replace_index_ident("hel~lo")), MISPLACED_INDEX);
    assert_eq!(generic_message(replace_index_ident("a/~b")), MISPLACED_INDEX);
    assert_eq!(generic_message(route_path_from_filename("~x/page.hbs")), MISPLACED_INDEX);
    assert_eq!(replace_index_ident("/~").unwrap(), "");
}

#[test]
fn misplaced_value_ident_is_refused() {
    assert_eq!(generic_message(split_fragments("news/art$icle")), MISPLACED_VALUE);
    assert_eq!(generic_message(route_path_from_filename("a$b.hbs")), MISPLACED_VALUE);
    assert_eq!(split_fragments("$").unwrap(), vec![Value("".to_string())]);
    assert_eq!(split_fragments("$a$b").unwrap(), vec![Value("a$b".to_string())]);
}

#[test]
fn route_path_prints_values_in_angle_brackets() {
    let path = RoutePath::try_from("news/$article.hbs").unwrap();
    assert_eq!(path.to_text(), "/news/<article>");
    assert_eq!(RoutePath::try_from("~.hbs").unwrap().to_text(), "/");
    assert_eq!(RoutePath(vec![]).to_text(), "/");
    assert_eq!(RoutePath::try_from("a/b/c.hbs").unwrap().to_text(), "/a/b/c");
}
