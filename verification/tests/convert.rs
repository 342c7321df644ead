use serde_json::Value;
use unreact::routes::convert::{
    convert_routes, paths_to_render, Object, PathToRender, TemplateToRender,
};
use unreact::routes::Fragment::{Literal, Value as Named};
use unreact::routes::{Route, RoutePath};
use unreact::Error;

fn text(value: &str) -> Value {
    Value::String(value.to_string())
}

fn object(pairs: Vec<(&str, Value)>) -> Object {
    let mut map = Object::new();
    for (key, value) in pairs {
        map.insert(key.to_string(), value);
    }
    map
}

fn values() -> Object {
    object(vec![
        (
            "item",
            Value::Object(object(vec![("bar", text("Value bar")), ("foo", text("Value foo"))])),
        ),
        (
            "other",
            Value::Object(object(vec![("foo2", text("Value foo 2")), ("bar2", text("Value bar 2"))])),
        ),
        ("title", text("no object")),
    ])
}

fn path(filepath: &str, values: Vec<(&str, Value)>) -> PathToRender {
    PathToRender { filepath: filepath.to_string(), values: object(values) }
}

#[test]
fn convert_routes_works() {
    let values = values();

    let routes = vec![
        Route { path: RoutePath(vec![Literal("".to_string())]), template: "INDEX".to_string() },
        Route {
            path: RoutePath(vec![Literal("404".to_string())]),
            template: "NOT-FOUND".to_string(),
        },
        Route {
            path: RoutePath(vec![Literal("values".to_string()), Named("item".to_string())]),
            template: "VALUES".to_string(),
        },
        Route {
            path: RoutePath(vec![
                Named("item".to_string()),
                Named("other".to_string()),
                Literal("last".to_string()),
            ]),
            template: "NESTED-VALUES".to_string(),
        },
    ];

    let templates = convert_routes(routes, &values).unwrap();

    let expected = vec![
        TemplateToRender {
            route: Route {
                path: RoutePath(vec![Literal("".to_string())]),
                template: "INDEX".to_string(),
            },
            paths: vec![path("/index.html", vec![])],
        },
        TemplateToRender {
            route: Route {
                path: RoutePath(vec![Literal("404".to_string())]),
                template: "NOT-FOUND".to_string(),
            },
            paths: vec![path("/404/index.html", vec![])],
        },
        TemplateToRender {
            route: Route {
                path: RoutePath(vec![Literal("values".to_string()), Named("item".to_string())]),
                template: "VALUES".to_string(),
            },
            paths: vec![
                path("/values/bar/index.html", vec![("item", text("Value bar"))]),
                path("/values/foo/index.html", vec![("item", text("Value foo"))]),
            ],
        },
        TemplateToRender {
            route: Route {
                path: RoutePath(vec![
                    Named("item".to_string()),
                    Named("other".to_string()),
                    Literal("last".to_string()),
                ]),
                template: "NESTED-VALUES".to_string(),
            },
            paths: vec![
                path(
                    "/bar/bar2/last/index.html",
                    vec![("item", text("Value bar")), ("other", text("Value bar 2"))],
                ),
                path(
                    "/bar/foo2/last/index.html",
                    vec![("item", text("Value bar")), ("other", text("Value foo 2"))],
                ),
                path(
                    "/foo/bar2/last/index.html",
                    vec![("item", text("Value foo")), ("other", text("Value bar 2"))],
                ),
                path(
                    "/foo/foo2/last/index.html",
                    vec![("item", text("Value foo")), ("other", text("Value foo 2"))],
                ),
            ],
        },
    ];

    for (i, template) in templates.iter().enumerate() {
        let expected = expected.get(i).expect("More templates that expected");

        assert_eq!(template.route, expected.route, "Template ROUTE (index {}) did not match", i);

        for (j, template_path) in template.paths.iter().enumerate() {
            let expected_path = expected.paths.get(j).expect("More template paths that expected");

            assert_eq!(
                template_path, expected_path,
                "Template (index {}) PATH (index {}) did not match",
                i, j
            );
        }

        assert_eq!(template, expected, "Template (index {}) did not match", i);
    }

    assert_eq!(templates, expected, "(Final check)");
}

fn generic(r: Result<Vec<PathToRender>, Error>) -> String {
    match r {
        Err(Error::Generic(message)) => message,
        _ => panic!("expected a generic error"),
    }
}

#[test]
fn missing_value_is_named() {
    let route = RoutePath(vec![Literal("a".to_string()), Named("nothing".to_string())]);
    assert_eq!(
        generic(paths_to_render(&route, &values())),
        "Value is not given with name 'nothing'"
    );
}

#[test]
fn value_that_is_no_object_is_named() {
    let route = RoutePath(vec![Named("title".to_string())]);
    assert_eq!(
        generic(paths_to_render(&route, &values())),
        "Value given is not an object map, named 'title'"
    );
    let routes = vec![
        Route { path: RoutePath(vec![Named("title".to_string())]), template: "T".to_string() },
        Route { path: RoutePath(vec![Named("nothing".to_string())]), template: "N".to_string() },
    ];
    assert!(matches!(
        convert_routes(routes, &values()),
        Err(Error::Generic(m)) if m == "Value given is not an object map, named 'title'"
    ));
}

#[test]
fn path_without_fragments_is_the_index_of_the_root() {
    assert_eq!(paths_to_render(&RoutePath(vec![]), &values()).unwrap(), vec![path("/index.html", vec![])]);
    assert_eq!(PathToRender::new(), path("", vec![]));
    let empty = object(vec![("none", Value::Object(object(vec![])))]);
    let route = RoutePath(vec![Named("none".to_string()), Literal("x".to_string())]);
    assert!(paths_to_render(&route, &empty).unwrap().is_empty());
    assert!(convert_routes(vec![], &empty).unwrap().is_empty());
}

#[test]
fn same_value_twice_keeps_the_later_key() {
    let route = RoutePath(vec![Named("item".to_string()), Named("item".to_string())]);
    let paths = paths_to_render(&route, &values()).unwrap();
    let files: Vec<&str> = paths.iter().map(|p| p.filepath.as_str()).collect();
    assert_eq!(
        files,
        vec!["/bar/bar/index.html", "/bar/foo/index.html", "/foo/bar/index.html", "/foo/foo/index.html"]
    );
    assert_eq!(paths[1].values, object(vec![("item", text("Value foo"))]));
}
