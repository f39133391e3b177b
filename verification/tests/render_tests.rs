use page_viewer::cache::{CacheHandle, InMemCache};
use page_viewer::dict::StrDict;
use page_viewer::json::Json;
use page_viewer::memstore::MemStore;
use page_viewer::pagetypes::{CssClass, Element, MetaDefinition, Page, PageHead, Widget};
use page_viewer::renderer::PageRenderer;
use page_viewer::store::StoreBackend;

fn dict_of(pairs: &[(&str, &str)]) -> StrDict {
    let mut d = StrDict::new();
    for (k, v) in pairs {
        d.insert(k.to_string(), v.to_string());
    }
    d
}

fn plain_widget(name: &str, html: &str, css: &str) -> Widget {
    Widget {
        name: name.to_string(),
        description: format!("widget {}", name),
        icon: String::new(),
        html: html.to_string(),
        css: css.to_string(),
        editor: Vec::new(),
    }
}

fn plain_class(name: &str, css: &str) -> CssClass {
    CssClass {
        name: name.to_string(),
        description: format!("class {}", name),
        css: css.to_string(),
        tags: Vec::new(),
    }
}

/// A store preloaded like the fixtures the renderer is exercised against.
fn fixture_store() -> MemStore {
    let mut store = MemStore::new("test");
    store.add_widget(plain_widget(
        "text",
        "<a class=\"test-link\" id=\"{{data.id}}\">Hello, {{data.text}}!</a>",
        ".test-link { background: red; }",
    ));
    store.add_widget(plain_widget(
        "columns",
        "<div class=\"columns column-{{data.id}}\" id=\"{{data.id}}\">{{context.children|join('')}}</div>",
        ".columns { display: flex; }",
    ));
    store.add_widget(plain_widget(
        "section",
        "<section id=\"{{data.id}}\">{{context.children|join('')}}</section>",
        "section { padding: 1rem; }",
    ));
    store.add_widget(plain_widget(
        "invalid_template",
        "<div>{{invalid.syntax.here}}</div>",
        "",
    ));
    store.add_css_class(plain_class("primary", "color: blue; font-weight: bold;"));
    store.add_css_class(plain_class("secondary", "color: gray; font-size: 0.9em;"));
    store
}

fn fixture_renderer() -> PageRenderer {
    let mut renderer = PageRenderer::new();
    renderer.store.add_store("test", StoreBackend::Mem(fixture_store()));
    renderer
}

fn empty_ctx() -> Json {
    Json::Obj(Vec::new())
}

fn mem_cache() -> CacheHandle {
    CacheHandle::Mem(InMemCache::new())
}

#[test]
fn test_basic_page_render() {
    let page = Page::new()
        .with_title("Test Page".to_string())
        .with_path("/test".to_string())
        .with_children(vec![Element::new(
            "test/text".to_string(),
            dict_of(&[("text", "Hello, world!")]),
            "test-link".to_string(),
        )
        .with_children(vec![Element::new(
            "test/text".to_string(),
            dict_of(&[("text", "Hello, child!")]),
            "test-link-child".to_string(),
        )])]);

    let renderer = fixture_renderer();
    let mut cache = mem_cache();
    let rendered = renderer
        .render_page(&page, &empty_ctx(), false, &mut cache)
        .unwrap();

    assert!(!rendered.body.is_empty());
    assert_eq!(rendered.title, "Test Page");
    assert_eq!(rendered.path, "/test");
}

#[test]
fn test_page_with_nested_children() {
    let page = Page::new()
        .with_title("Test Page".to_string())
        .with_path("/test".to_string())
        .with_children(vec![Element::new(
            "test/columns".to_string(),
            dict_of(&[("wrap", "true"), ("gap", "12")]),
            "test-columns".to_string(),
        )
        .with_children(vec![
            Element::new(
                "test/text".to_string(),
                dict_of(&[("text", "Column 1")]),
                "test-link-1".to_string(),
            ),
            Element::new(
                "test/text".to_string(),
                dict_of(&[("text", "Column 2")]),
                "test-link-2".to_string(),
            ),
        ])]);

    let renderer = fixture_renderer();
    let mut cache = mem_cache();
    let rendered = renderer
        .render_page(&page, &empty_ctx(), false, &mut cache)
        .unwrap();

    let expected_html = "<div class=\"columns column-test-columns\" id=\"test-columns\"><a class=\"test-link\" id=\"test-link-1\">Hello, Column 1!</a><a class=\"test-link\" id=\"test-link-2\">Hello, Column 2!</a></div>";
    assert_eq!(rendered.body, expected_html);
}

#[test]
fn test_page_with_custom_styles() {
    let page = Page::new()
        .with_title("Test Page".to_string())
        .with_path("/test".to_string())
        .with_children(vec![Element::new(
            "test/text".to_string(),
            dict_of(&[("text", "Hello, world!")]),
            "test-link-id".to_string(),
        )
        .with_style(dict_of(&[("background", "red")]))]);

    let renderer = fixture_renderer();
    let mut cache = mem_cache();
    let rendered = renderer
        .render_page(&page, &empty_ctx(), false, &mut cache)
        .unwrap();

    let css = rendered.get_css();
    assert!(css.contains(".test-link { background: red; }"));
    assert!(css.contains("#test-link-id {\n background: red;\n }"));
}

#[test]
fn test_page_with_custom_classes() {
    let page = Page::new()
        .with_title("Test Page".to_string())
        .with_path("/test".to_string())
        .with_children(vec![Element::new(
            "test/text".to_string(),
            dict_of(&[("text", "Hello, world!")]),
            "test-link".to_string(),
        )
        .with_classes(vec![
            "test/primary".to_string(),
            "test/secondary".to_string(),
        ])]);

    let renderer = fixture_renderer();
    let mut cache = mem_cache();
    let rendered = renderer
        .render_page(&page, &empty_ctx(), false, &mut cache)
        .unwrap();

    let css = rendered.get_css();
    assert!(css.contains("color: blue; font-weight: bold;"));
    assert!(css.contains("color: gray; font-size: 0.9em;"));
}

#[test]
fn test_missing_widget_error() {
    let page = Page::new()
        .with_title("Test Page".to_string())
        .with_path("/test".to_string())
        .with_children(vec![Element::new(
            "test/nonexistent_widget".to_string(),
            StrDict::new(),
            "test".to_string(),
        )]);

    let renderer = fixture_renderer();
    let mut cache = mem_cache();
    let result = renderer.render_page(&page, &empty_ctx(), false, &mut cache);
    assert!(result.is_err());
    assert!(result.err().unwrap().message().contains("Widget not found"));

    // A missing widget is structural: debug mode fails too.
    let mut cache2 = mem_cache();
    let result_debug = renderer.render_page(&page, &empty_ctx(), true, &mut cache2);
    assert!(result_debug.is_err());
}

#[test]
fn test_template_rendering_errors() {
    let page = Page::new()
        .with_title("Test Page".to_string())
        .with_path("/test".to_string())
        .with_children(vec![Element::new(
            "test/invalid_template".to_string(),
            StrDict::new(),
            "test".to_string(),
        )]);

    let renderer = fixture_renderer();
    let mut cache = mem_cache();
    let rendered = renderer
        .render_page(&page, &empty_ctx(), true, &mut cache)
        .unwrap();
    assert!(rendered.body.contains("<pre style=\"color:red;\">"));
    assert!(!rendered.errors.is_empty());

    let mut cache2 = mem_cache();
    let result = renderer.render_page(&page, &empty_ctx(), false, &mut cache2);
    assert!(result.is_err());
}

#[test]
fn test_meta_data_handling() {
    let meta_defs = vec![
        MetaDefinition {
            name: "description".to_string(),
            content: "Test page description".to_string(),
        },
        MetaDefinition {
            name: "keywords".to_string(),
            content: "test, page".to_string(),
        },
    ];

    let page = Page::new()
        .with_title("Test Page".to_string())
        .with_path("/test".to_string())
        .with_head(PageHead {
            meta: Some(vec![
                MetaDefinition {
                    name: "description".to_string(),
                    content: "Test page description".to_string(),
                },
                MetaDefinition {
                    name: "keywords".to_string(),
                    content: "test, page".to_string(),
                },
            ]),
            link: Some(vec![]),
        })
        .with_children(vec![Element::new(
            "test/text".to_string(),
            dict_of(&[("text", "Hello")]),
            "test".to_string(),
        )]);

    let renderer = fixture_renderer();
    let mut cache = mem_cache();
    let rendered = renderer
        .render_page(&page, &empty_ctx(), false, &mut cache)
        .unwrap();

    let meta = rendered.head.meta.as_ref().unwrap();
    assert_eq!(meta.len(), meta_defs.len());
    for (actual, expected) in meta.iter().zip(meta_defs.iter()) {
        assert_eq!(actual.name, expected.name);
        assert_eq!(actual.content, expected.content);
    }
}

#[test]
fn test_data_context_templating() {
    let page = Page::new()
        .with_title("Test Page".to_string())
        .with_path("/test".to_string())
        .with_children(vec![Element::new(
            "test/text".to_string(),
            dict_of(&[("text", "Hello, {{context.name}}!")]),
            "test".to_string(),
        )]);

    let renderer = fixture_renderer();
    let mut cache = mem_cache();
    let ctx = Json::Obj(vec![("name".to_string(), Json::Str("World".to_string()))]);
    let rendered = renderer.render_page(&page, &ctx, false, &mut cache).unwrap();

    assert!(rendered.body.contains("Hello, World!"));
}

#[test]
fn test_full_html_page_generation() {
    let page = Page::new()
        .with_title("Test Page".to_string())
        .with_path("/test".to_string())
        .with_children(vec![Element::new(
            "test/text".to_string(),
            dict_of(&[("text", "Hello, world!")]),
            "test".to_string(),
        )]);

    let renderer = fixture_renderer();
    let mut cache = mem_cache();
    let rendered = renderer
        .render_page(&page, &empty_ctx(), false, &mut cache)
        .unwrap();

    let full_html = rendered.render_full_html_page();
    assert!(full_html.contains("<!DOCTYPE html>"));
    assert!(full_html.contains("<html>"));
    assert!(full_html.contains("<head>"));
    assert!(full_html.contains("<meta name=\"viewport\""));
    assert!(full_html.contains("<style>"));
    assert!(full_html.contains("<body>"));
    assert!(full_html.contains("Hello, world!"));
}

#[test]
fn test_css_variable_generation() {
    let page = Page::new()
        .with_title("Test Page".to_string())
        .with_path("/test".to_string())
        .with_children(vec![
            Element::new(
                "test/text".to_string(),
                dict_of(&[("text", "Text 1")]),
                "test1".to_string(),
            )
            .with_style(dict_of(&[("color", "red")])),
            Element::new("test/section".to_string(), StrDict::new(), "test2".to_string())
                .with_style(dict_of(&[("padding", "2rem")])),
        ]);

    let renderer = fixture_renderer();
    let mut cache = mem_cache();
    let rendered = renderer
        .render_page(&page, &empty_ctx(), false, &mut cache)
        .unwrap();

    let css = rendered.get_css();
    assert!(css.contains("#test1 {\n color: red;\n }"));
    assert!(css.contains("#test2 {\n padding: 2rem;\n }"));
    assert!(css.contains(".test-link { background: red; }"));
    assert!(css.contains("section { padding: 1rem; }"));
}

#[test]
fn test_complex_nested_rendering() {
    let page = Page::new()
        .with_title("Complex Page".to_string())
        .with_path("/complex".to_string())
        .with_children(vec![Element::new(
            "test/section".to_string(),
            StrDict::new(),
            "main-section".to_string(),
        )
        .with_children(vec![Element::new(
            "test/columns".to_string(),
            dict_of(&[("gap", "16")]),
            "main-columns".to_string(),
        )
        .with_children(vec![
            Element::new(
                "test/text".to_string(),
                dict_of(&[("text", "Column 1")]),
                "col1".to_string(),
            ),
            Element::new(
                "test/section".to_string(),
                StrDict::new(),
                "col2-section".to_string(),
            )
            .with_children(vec![Element::new(
                "test/text".to_string(),
                dict_of(&[("text", "Nested content")]),
                "nested-text".to_string(),
            )]),
        ])])]);

    let renderer = fixture_renderer();
    let mut cache = mem_cache();
    let rendered = renderer
        .render_page(&page, &empty_ctx(), false, &mut cache)
        .unwrap();

    assert!(rendered.body.contains("<section id=\"main-section\">"));
    assert!(rendered
        .body
        .contains("<div class=\"columns column-main-columns\" id=\"main-columns\">"));
    assert!(rendered.body.contains("Column 1"));
    assert!(rendered.body.contains("<section id=\"col2-section\">"));
    assert!(rendered.body.contains("Nested content"));
}

#[test]
fn test_widget_css_integration() {
    let mut store = fixture_store();
    store.add_widget(plain_widget(
        "custom",
        "<div class=\"custom\">{{data.content}}</div>",
        ".custom { border: 1px solid blue; background: yellow; }",
    ));

    let page = Page::new()
        .with_title("Test Page".to_string())
        .with_path("/test".to_string())
        .with_children(vec![Element::new(
            "test/custom".to_string(),
            dict_of(&[("content", "Custom content")]),
            "custom-element".to_string(),
        )]);

    let mut renderer = PageRenderer::new();
    renderer.store.add_store("test", StoreBackend::Mem(store));
    let mut cache = mem_cache();
    let rendered = renderer
        .render_page(&page, &empty_ctx(), false, &mut cache)
        .unwrap();

    let css = rendered.get_css();
    assert!(css.contains("border: 1px solid blue"));
    assert!(css.contains("background: yellow"));
}

#[test]
fn test_debug_mode_behavior() {
    let mut store = fixture_store();
    store.add_widget(plain_widget(
        "error_widget",
        "<div>{{nonexistent.variable}}</div>",
        "",
    ));

    let page = Page::new()
        .with_title("Test Page".to_string())
        .with_path("/test".to_string())
        .with_children(vec![Element::new(
            "test/error_widget".to_string(),
            StrDict::new(),
            "error-test".to_string(),
        )]);

    let mut renderer = PageRenderer::new();
    renderer.store.add_store("test", StoreBackend::Mem(store));

    let mut cache = mem_cache();
    let rendered_debug = renderer
        .render_page(&page, &empty_ctx(), true, &mut cache)
        .unwrap();
    assert!(rendered_debug.body.contains("<pre style=\"color:red;\">"));
    assert!(!rendered_debug.errors.is_empty());

    let mut cache2 = mem_cache();
    let result_no_debug = renderer.render_page(&page, &empty_ctx(), false, &mut cache2);
    assert!(result_no_debug.is_err());
}

#[test]
fn test_response_codes_and_headers() {
    let page = Page::new()
        .with_title("Test Page".to_string())
        .with_path("/test".to_string())
        .with_children(vec![Element::new(
            "test/text".to_string(),
            dict_of(&[("text", "Hello")]),
            "test".to_string(),
        )]);

    let renderer = fixture_renderer();
    let mut cache = mem_cache();
    let rendered = renderer
        .render_page(&page, &empty_ctx(), false, &mut cache)
        .unwrap();

    assert_eq!(rendered.response_code, 200);
    assert!(rendered.headers.is_empty());
}

#[test]
fn test_static_context_binding() {
    let mut renderer = fixture_renderer();
    renderer.store.add_store(
        "code",
        StoreBackend::Code(page_viewer::codestore::CodeStore::new("code")),
    );

    let page = Page::new()
        .with_title("Context Page".to_string())
        .with_path("/ctx".to_string())
        .with_children(vec![Element::new(
            "code/static_context".to_string(),
            dict_of(&[("key", "user"), ("value", "{\"name\":\"Ada\"}")]),
            "ctx-holder".to_string(),
        )
        .with_children(vec![Element::new(
            "test/text".to_string(),
            dict_of(&[("text", "{{context.user.name}}")]),
            "greeting".to_string(),
        )])]);

    let mut cache = mem_cache();
    let rendered = renderer
        .render_page(&page, &empty_ctx(), false, &mut cache)
        .unwrap();
    assert!(rendered.body.contains("Hello, Ada!"));
}

#[test]
fn test_static_context_bad_json_debug() {
    let mut renderer = fixture_renderer();
    renderer.store.add_store(
        "code",
        StoreBackend::Code(page_viewer::codestore::CodeStore::new("code")),
    );

    let page = Page::new().with_path("/ctx".to_string()).with_children(vec![Element::new(
        "code/static_context".to_string(),
        dict_of(&[("key", "user"), ("value", "{not json")]),
        "ctx-holder".to_string(),
    )]);

    let mut cache = mem_cache();
    let rendered = renderer
        .render_page(&page, &empty_ctx(), true, &mut cache)
        .unwrap();
    assert!(rendered.body.contains("<pre style=\"color:red;\">"));
    assert_eq!(rendered.errors.len(), 1);

    let mut cache2 = mem_cache();
    let strict = renderer.render_page(&page, &empty_ctx(), false, &mut cache2);
    assert!(strict.is_err());
}

#[test]
fn test_css_order_independent() {
    // Permuting siblings with distinct id keys changes the body but not the
    // emitted CSS.
    let a = Element::new(
        "test/text".to_string(),
        dict_of(&[("text", "A")]),
        "ida".to_string(),
    )
    .with_style(dict_of(&[("color", "red")]));
    let b = Element::new(
        "test/text".to_string(),
        dict_of(&[("text", "B")]),
        "idb".to_string(),
    )
    .with_style(dict_of(&[("color", "blue")]));

    let page1 = Page::new().with_path("/p".to_string()).with_children(vec![
        a.duplicate(),
        b.duplicate(),
    ]);
    let page2 = Page::new().with_path("/p".to_string()).with_children(vec![b, a]);

    let renderer = fixture_renderer();
    let mut cache = mem_cache();
    let r1 = renderer
        .render_page(&page1, &empty_ctx(), false, &mut cache)
        .unwrap();
    let r2 = renderer
        .render_page(&page2, &empty_ctx(), false, &mut cache)
        .unwrap();

    assert_eq!(r1.get_css(), r2.get_css());
    assert_ne!(r1.body, r2.body);
}

#[test]
fn test_render_deterministic() {
    let page = Page::new()
        .with_title("Twice".to_string())
        .with_path("/twice".to_string())
        .with_children(vec![Element::new(
            "test/text".to_string(),
            dict_of(&[("text", "same")]),
            "same-id".to_string(),
        )]);

    let renderer = fixture_renderer();
    let mut cache = mem_cache();
    let r1 = renderer
        .render_page(&page, &empty_ctx(), false, &mut cache)
        .unwrap();
    let r2 = renderer
        .render_page(&page, &empty_ctx(), false, &mut cache)
        .unwrap();
    assert_eq!(r1.body, r2.body);
    assert_eq!(r1.get_css(), r2.get_css());
}

#[test]
fn test_flat_text_widget_exact_body() {
    let page = Page::new().with_path("/flat".to_string()).with_children(vec![Element::new(
        "test/text".to_string(),
        dict_of(&[("text", "world")]),
        "a".to_string(),
    )]);

    let renderer = fixture_renderer();
    let mut cache = mem_cache();
    let rendered = renderer
        .render_page(&page, &empty_ctx(), false, &mut cache)
        .unwrap();

    assert_eq!(rendered.body, "<a class=\"test-link\" id=\"a\">Hello, world!</a>");
    assert!(rendered.get_css().contains(".test-link { background: red; }"));
}

#[test]
fn test_debug_error_count_matches_failures() {
    // Two failing templates and one sound one: debug mode substitutes two
    // error boxes and records exactly two errors.
    let page = Page::new().with_path("/counts".to_string()).with_children(vec![
        Element::new("test/invalid_template".to_string(), StrDict::new(), "e1".to_string()),
        Element::new(
            "test/text".to_string(),
            dict_of(&[("text", "fine")]),
            "ok1".to_string(),
        ),
        Element::new("test/invalid_template".to_string(), StrDict::new(), "e2".to_string()),
    ]);

    let renderer = fixture_renderer();
    let mut cache = mem_cache();
    let rendered = renderer
        .render_page(&page, &empty_ctx(), true, &mut cache)
        .unwrap();
    assert_eq!(rendered.errors.len(), 2);
    assert_eq!(rendered.body.matches("<pre style=\"color:red;\">").count(), 2);
    assert!(rendered.body.contains("Hello, fine!"));
}
