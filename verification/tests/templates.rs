use handlebars::Handlebars;
use unreact::filemap::FileMap;
use unreact::templates::{register_partials, register_templates};
use unreact::Error;

#[test]
fn registered_templates_can_be_rendered() {
    let mut registry = Handlebars::new();
    let mut templates = FileMap::new();
    templates.insert("page".to_string(), "<h1>Hello {{foo}}</h1>".to_string());
    templates.insert("other/article".to_string(), "{{>page}}!".to_string());

    register_templates(&mut registry, &templates).unwrap();

    assert!(registry.has_template("page"));
    assert!(registry.has_template("other/article"));
    let mut data = std::collections::BTreeMap::new();
    data.insert("foo".to_string(), "World".to_string());
    assert_eq!(registry.render("other/article", &data).unwrap(), "<h1>Hello World</h1>!");
}

#[test]
fn first_broken_template_ends_the_registration() {
    let mut registry = Handlebars::new();
    let mut templates = FileMap::new();
    templates.insert("good".to_string(), "<p>{{x}}</p>".to_string());
    templates.insert("broken".to_string(), "{{#if x}}never closed".to_string());
    templates.insert("late".to_string(), "<p>late</p>".to_string());

    let outcome = register_templates(&mut registry, &templates);

    match outcome {
        Err(Error::RegisterTemplate(name, fault)) => {
            assert_eq!(name, "broken");
            assert!(fault.contains("broken"));
        }
        _ => panic!("expected a registration error"),
    }
    assert!(registry.has_template("good"));
    assert!(!registry.has_template("broken"));
    assert!(!registry.has_template("late"));
}

#[test]
fn inbuilt_partials_are_registered() {
    let mut registry = Handlebars::new();
    register_partials(&mut registry).unwrap();
    for name in ["LINK", "CSS", "ICON", "META", "META_EXTRA"] {
        assert!(registry.has_template(name));
    }
}
