use page_viewer::dict::StrDict;
use page_viewer::pagetypes::{Element, MetaDefinition, Page, PageHead};

fn dict_of(pairs: &[(&str, &str)]) -> StrDict {
    let mut d = StrDict::new();
    for (k, v) in pairs {
        d.insert(k.to_string(), v.to_string());
    }
    d
}

#[test]
fn test_page_creation() {
    let page = Page::new()
        .with_title("Test Page".to_string())
        .with_path("/test".to_string());

    assert_eq!(page.title, "Test Page");
    assert_eq!(page.path, "/test");
    assert!(page.url.is_none());
    assert!(page.template.is_none());
    assert!(page.children.is_empty());
    assert!(page.cache.is_empty());
    assert!(page.last_modified.is_none());
    assert!(page.head.is_none());
    assert!(page.css_variables.is_empty());
}

#[test]
fn test_page_builder_pattern() {
    let page = Page::new()
        .with_title("Test Page".to_string())
        .with_path("/test".to_string())
        .with_url("https://example.com/test".to_string())
        .with_template("default".to_string())
        .with_head(PageHead {
            meta: Some(vec![MetaDefinition {
                name: "description".to_string(),
                content: "A test page".to_string(),
            }]),
            link: None,
        });

    assert_eq!(page.url, Some("https://example.com/test".to_string()));
    assert_eq!(page.template, Some("default".to_string()));
    let meta = page.head.as_ref().unwrap().meta.as_ref().unwrap();
    assert_eq!(meta.len(), 1);
    assert_eq!(meta[0].name, "description");
}

#[test]
fn test_element_creation() {
    let element = Element::new(
        "div".to_string(),
        dict_of(&[("text", "Hello")]),
        "test-div".to_string(),
    );

    assert_eq!(element.widget, "div");
    assert_eq!(element.data.get("text").unwrap(), "Hello");
    assert_eq!(element.id, "test-div");
    assert!(element.children.is_empty());
    assert!(element.style.is_empty());
}

#[test]
fn test_element_builder_pattern() {
    let element = Element::new(
        "div".to_string(),
        dict_of(&[("text", "Hello")]),
        "test-div".to_string(),
    )
    .with_style(dict_of(&[("color", "red")]));

    assert_eq!(element.id, "test-div");
    assert_eq!(element.style.get("color").unwrap(), "red");
}

#[test]
fn test_page_with_elements() {
    let element = Element::new(
        "div".to_string(),
        dict_of(&[("text", "Hello")]),
        "test-div".to_string(),
    );
    let page = Page::new()
        .with_title("Test Page".to_string())
        .with_path("/test".to_string())
        .with_children(vec![element]);

    assert_eq!(page.children.len(), 1);
    assert_eq!(page.children[0].widget, "div");
}

#[test]
fn test_meta_definition() {
    let meta = MetaDefinition {
        name: "keywords".to_string(),
        content: "rust, page, viewer".to_string(),
    };

    assert_eq!(meta.name, "keywords");
    assert_eq!(meta.content, "rust, page, viewer");
}

#[test]
fn test_rendered_page() {
    let page = Page::new()
        .with_title("Test Page".to_string())
        .with_path("/test".to_string());
    let mut rendered_page = page_viewer::pagerender::RenderedPage::new(page);

    assert!(rendered_page.render().is_ok());
    assert_eq!(rendered_page.body(), "WIP");
}

#[test]
fn test_fix_generates_usable_ids() {
    let child = Element::new("a/b".to_string(), StrDict::new(), String::new());
    let parent = Element::new("a/b".to_string(), StrDict::new(), String::new())
        .with_children(vec![child]);
    let page = Page::new().with_children(vec![parent]);

    let fixed = page.fix();
    let p = &fixed.children[0];
    assert!(!p.id.is_empty());
    assert!(!p.id.chars().next().unwrap().is_ascii_digit());
    let c = &p.children[0];
    assert!(!c.id.is_empty());
    assert!(!c.id.chars().next().unwrap().is_ascii_digit());
}

#[test]
fn test_fix_keeps_existing_ids() {
    let element = Element::new("a/b".to_string(), StrDict::new(), "kept".to_string());
    let page = Page::new().with_children(vec![element]);
    let fixed = page.fix();
    assert_eq!(fixed.children[0].id, "kept");
}

#[test]
fn test_config_empty() {
    let config = page_viewer::config::Config::empty();
    assert_eq!(config.debug, false);
    assert_eq!(config.server.port, 8006);
    assert_eq!(config.server.host, "0.0.0.0");
    assert_eq!(config.stores.len(), 0);
}

#[test]
fn test_expand_home() {
    assert_eq!(
        page_viewer::config::expand_home("$HOME/tmp/pdf", "/home/someone"),
        "/home/someone/tmp/pdf"
    );
    assert_eq!(page_viewer::config::expand_home("/var/tmp", "/home/someone"), "/var/tmp");
}
