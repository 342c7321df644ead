use unreact::config::{DEFAULT_PORT, DEFAULT_PORT_WS, DEV_BUILD_DIR};
use unreact::convert::{
    css_minified, finish_page, partial_registered, scss_compiled, template_registered,
    template_rendered, CssStep,
};
use unreact::server::files::{dev_script, with_dev_script};
use unreact::site::{
    admit_route, build_folders, get_url, is_dev_in, loopback_address, package_name_in,
    page_output, style_output, template_file, Output,
};
use unreact::{Config, Error};

#[test]
fn default_config_has_the_documented_values() {
    let config = Config::default();
    assert_eq!(config.build, "build");
    assert_eq!(config.templates, "templates");
    assert_eq!(config.styles, "styles");
    assert_eq!(config.public, "public");
    assert!(!config.strict);
    assert!(config.minify);
    assert_eq!(config.port, 3000);
    assert_eq!(config.port_ws, 3001);
    assert_eq!((DEFAULT_PORT, DEFAULT_PORT_WS), (3000, 3001));
}

#[test]
fn dev_mode_overrides_the_build_folder() {
    let config = Config { build: "out".to_string(), ..Config::default() };
    assert_eq!(config.effective(false).build, "out");
    let config = Config { build: "out".to_string(), minify: false, ..Config::default() };
    let dev = config.effective(true);
    assert_eq!(dev.build, DEV_BUILD_DIR);
    assert_eq!(dev.build, ".devbuild");
    assert!(!dev.minify);
    assert_eq!(dev.templates, "templates");
}

#[test]
fn url_ends_in_a_slash() {
    assert_eq!(get_url("https://example.com", false, 3000), "https://example.com/");
    assert_eq!(get_url("https://example.com/", false, 3000), "https://example.com/");
    assert_eq!(get_url("", false, 3000), "/");
    assert_eq!(get_url("https://example.com", true, 3000), "http://localhost:3000/");
    assert_eq!(get_url("ignored", true, 65535), "http://localhost:65535/");
    assert_eq!(get_url("ignored", true, 0), "http://localhost:0/");
}

#[test]
fn dev_flag_is_found_among_the_arguments() {
    let args = |list: &[&str]| list.iter().map(|a| a.to_string()).collect::<Vec<_>>();
    assert!(is_dev_in(&args(&["site", "--dev"])));
    assert!(is_dev_in(&args(&["-d"])));
    assert!(!is_dev_in(&args(&["site", "--development", "-dev", "d"])));
    assert!(!is_dev_in(&args(&[])));
}

#[test]
fn pages_are_written_as_index_files() {
    assert_eq!(
        page_output("build", "about"),
        Output { folder: Some("build/about".to_string()), file: "build/about/index.html".to_string() }
    );
    assert_eq!(
        page_output("build", ""),
        Output { folder: Some("build/".to_string()), file: "build//index.html".to_string() }
    );
    assert_eq!(
        page_output(".devbuild", "404"),
        Output { folder: None, file: ".devbuild/404.html".to_string() }
    );
    assert_eq!(
        style_output("build", "styles", "scoped/stylish"),
        Output {
            folder: Some("build/styles/scoped/stylish".to_string()),
            file: "build/styles/scoped/stylish/style.css".to_string()
        }
    );
    assert_eq!(build_folders("build"), vec!["build//", "build/styles/", "build/public/"]);
    assert_eq!(template_file("templates", "other/article"), "templates/other/article.hbs");
}

#[test]
fn compiler_failure_names_the_style_sheet() {
    match scss_compiled("global", Err("unexpected }".to_string()), true) {
        CssStep::Finished(Err(Error::ScssConvert(name, reason))) => {
            assert_eq!(name, "global");
            assert_eq!(reason, "unexpected }");
        }
        _ => panic!("expected a conversion error"),
    }
}

#[test]
fn compiled_css_is_minified_only_on_request() {
    match scss_compiled("global", Ok("body {\n}\n".to_string()), false) {
        CssStep::Finished(Ok(css)) => assert_eq!(css, "body {\n}\n"),
        _ => panic!("expected the compiled text"),
    }
    match scss_compiled("global", Ok("body {\n}\n".to_string()), true) {
        CssStep::Minify(css) => assert_eq!(css, "body {\n}\n"),
        _ => panic!("expected a minify step"),
    }
    assert_eq!(css_minified("global", Ok("body{}".to_string())).unwrap(), "body{}");
    assert!(matches!(
        css_minified("global", Err("bad".to_string())),
        Err(Error::CssMinify(name, reason)) if name == "global" && reason == "bad",
    ));
}

#[test]
fn template_failures_name_the_template() {
    assert_eq!(template_rendered("page", Ok("<p>".to_string())).unwrap(), "<p>");
    assert!(matches!(
        template_rendered("page", Err("no such partial".to_string())),
        Err(Error::RenderTemplate(name, reason)) if name == "page" && reason == "no such partial",
    ));
    assert!(template_registered("page", Ok(())).is_ok());
    assert!(matches!(
        template_registered("page", Err("unclosed".to_string())),
        Err(Error::RegisterTemplate(name, reason)) if name == "page" && reason == "unclosed",
    ));
    assert!(partial_registered("LINK", Ok(())).is_ok());
    assert!(matches!(
        partial_registered("LINK", Err("unclosed".to_string())),
        Err(Error::RegisterInbuiltTemplate(name, reason)) if name == "LINK" && reason == "unclosed",
    ));
}

#[test]
fn dev_pages_end_with_the_script() {
    let page = "<h1>Hello</h1>".to_string();
    assert_eq!(finish_page(page.clone(), false, 3001), page);
    let served = finish_page(page.clone(), true, 3001);
    assert_eq!(served, format!("{}\n\n{}", page, dev_script(3001)));
    assert_eq!(with_dev_script(page, 8), format!("<h1>Hello</h1>\n\n{}", dev_script(8)));
}

#[test]
fn error_messages_name_their_subject() {
    assert_eq!(Error::Generic("boom".to_string()).message(), "Generic Error: boom");
    assert_eq!(
        Error::SourceDirectoryNotExist("templates".to_string()).message(),
        "Source directory does not exist: templates"
    );
    assert_eq!(
        Error::WatchDirectoryNotExist("styles".to_string()).message(),
        "Could not watch folder: styles"
    );
    assert_eq!(Error::PortUnavailable(3001).message(), "Could not listen on port: 3001");
    assert_eq!(
        Error::ReadDir("a//".to_string(), "denied".to_string()).message(),
        "Could not read directory: a//: denied"
    );
    assert_eq!(
        Error::ReadFile("a//b".to_string(), "denied".to_string()).message(),
        "Could not read file: a//b: denied"
    );
    assert_eq!(
        Error::ScssConvert("g".to_string(), "r".to_string()).message(),
        "Could not convert style sheet: g: r"
    );
    assert_eq!(
        Error::CssMinify("g".to_string(), "r".to_string()).message(),
        "Could not minify style sheet: g: r"
    );
    assert_eq!(
        Error::RegisterTemplate("g".to_string(), "r".to_string()).message(),
        "Could not register template: g: r"
    );
    assert_eq!(
        Error::RegisterInbuiltTemplate("g".to_string(), "r".to_string()).message(),
        "Could not register built-in template: g: r"
    );
    assert_eq!(
        Error::RenderTemplate("g".to_string(), "r".to_string()).message(),
        "Could not render template: g: r"
    );
}

#[test]
fn package_name_is_read_from_the_package_section() {
    let manifest = "[package]\nname = \"my-site\"\nversion = \"0.1.0\"\n\n[dependencies]\nname = \"other\"\n";
    assert_eq!(package_name_in(manifest), Some("my-site".to_string()));

    let windows = "  [package]  \r\n\tname=\"a=b\"\r\n";
    assert_eq!(package_name_in(windows), Some("a=b".to_string()));

    let elsewhere = "[dependencies]\nname = \"x\"\n[package]\nversion = \"1\"\nname = \"late\"";
    assert_eq!(package_name_in(elsewhere), Some("late".to_string()));
}

#[test]
fn package_name_needs_quotes_and_a_package_section() {
    assert_eq!(package_name_in(""), None);
    assert_eq!(package_name_in("name = \"x\""), None);
    assert_eq!(package_name_in("[package]\nname = x\nname = \"y\""), None);
    assert_eq!(package_name_in("[package]\nname = \"\nname = \"y\""), None);
    assert_eq!(package_name_in("[package]\nname\nname = \"y\""), None);
    assert_eq!(package_name_in("[package]\nnames = \"x\"\n"), None);
    assert_eq!(package_name_in("[package]\nname = \"\""), Some("".to_string()));
    assert_eq!(package_name_in("[package]\n[workspace]\nname = \"x\""), None);
}

#[test]
fn missing_template_is_refused_outside_development() {
    assert!(admit_route("page", false, true).is_ok());
    assert!(admit_route("page", true, false).is_ok());
    assert!(admit_route("page", true, true).is_ok());
    assert!(matches!(
        admit_route("other/article", false, false),
        Err(Error::TemplateNotExist(name)) if name == "other/article",
    ));
}

#[test]
fn server_listens_on_loopback_only() {
    assert_eq!(loopback_address(3000), "127.0.0.1:3000");
    assert_eq!(loopback_address(0), "127.0.0.1:0");
}
