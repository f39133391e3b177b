use page_viewer::httpresponse::accept_type;
use page_viewer::json::{parse_json, Json};
use page_viewer::restart::{serve_step, should_reload, ServeAction, ServeEvent, WatchEvent};
use page_viewer::types::RenderError;
use page_viewer::strutil::{
    contains_substr, ends_with_str, html_escape, join_strings, sort_strings, split_all,
    split_at_char, starts_with_str, str_le,
};

#[test]
fn test_sort_strings_lexicographic() {
    let v = vec![
        "section { padding: 1rem; }".to_string(),
        ".test-link { background: red; }".to_string(),
        "#x {}".to_string(),
    ];
    let sorted = sort_strings(&v);
    assert_eq!(
        sorted,
        vec![
            "#x {}".to_string(),
            ".test-link { background: red; }".to_string(),
            "section { padding: 1rem; }".to_string(),
        ]
    );
}

#[test]
fn test_str_le() {
    assert!(str_le("abc", "abd"));
    assert!(str_le("ab", "abc"));
    assert!(!str_le("abd", "abc"));
    assert!(str_le("", "a"));
    assert!(str_le("same", "same"));
}

#[test]
fn test_contains_substr() {
    assert!(contains_substr("Hello, {{context.name}}!", "{{"));
    assert!(!contains_substr("plain text", "{{"));
    assert!(contains_substr("{% for x in y %}", "{%"));
    assert!(contains_substr("abc", ""));
}

#[test]
fn test_split_helpers() {
    assert_eq!(
        split_at_char("store/some/path", '/'),
        Some(("store".to_string(), "some/path".to_string()))
    );
    assert_eq!(split_at_char("nopath", '/'), None);
    assert_eq!(
        split_all("a|b|c", '|'),
        vec!["a".to_string(), "b".to_string(), "c".to_string()]
    );
    assert_eq!(split_all("solo", '|'), vec!["solo".to_string()]);
    assert!(starts_with_str("test-link", "test"));
    assert!(!starts_with_str("te", "test"));
    assert!(ends_with_str("page.yaml", ".yaml"));
    assert!(!ends_with_str("page.yml", ".yaml"));
}

#[test]
fn test_join_strings() {
    let v = vec!["a".to_string(), "b".to_string(), "c".to_string()];
    assert_eq!(join_strings(&v, "\n"), "a\nb\nc");
    assert_eq!(join_strings(&Vec::new(), "\n"), "");
    assert_eq!(join_strings(&vec!["only".to_string()], "\n"), "only");
}

#[test]
fn test_html_escape() {
    assert_eq!(
        html_escape("<a href=\"x\">&'"),
        "&lt;a href=&quot;x&quot;&gt;&amp;&#39;"
    );
    assert_eq!(html_escape("plain"), "plain");
}

#[test]
fn test_parse_json_values() {
    match parse_json("{\"name\":\"Ada\",\"age\":36}").unwrap() {
        Json::Obj(entries) => {
            assert_eq!(entries.len(), 2);
            // The parser hands objects back in its canonical sorted key order.
            assert_eq!(entries[0].0, "age");
            assert!(matches!(&entries[0].1, Json::Num(n) if n == "36"));
            assert_eq!(entries[1].0, "name");
            assert!(matches!(&entries[1].1, Json::Str(s) if s == "Ada"));
        },
        _ => panic!("expected an object"),
    }
    assert!(parse_json("{not json").is_err());
    assert!(matches!(parse_json("null").unwrap(), Json::Null));
    assert!(matches!(parse_json("true").unwrap(), Json::Bool(true)));
}

#[test]
fn test_accept_type_precedence() {
    let html = "html".to_string();
    let css = "css".to_string();
    let pdf = "pdf".to_string();
    let json_ext = "json".to_string();
    let header = "text/html; q=0.9".to_string();

    // Extension first.
    assert_eq!(
        accept_type(Some(&html), Some(&css), Some(&header)),
        "text/html"
    );
    assert_eq!(accept_type(Some(&json_ext), None, None), "application/json");
    assert_eq!(accept_type(Some(&pdf), None, None), "application/pdf");
    // Then the format parameter.
    assert_eq!(accept_type(None, Some(&css), Some(&header)), "text/css");
    assert_eq!(accept_type(None, Some(&html), None), "text/html");
    // Then the Accept header, trimmed at its parameters.
    assert_eq!(accept_type(None, None, Some(&header)), "text/html");
    // And the default.
    assert_eq!(accept_type(None, None, None), "application/json");
}

#[test]
fn test_serve_step() {
    assert!(matches!(
        serve_step(ServeEvent::RestartRequested),
        ServeAction::StopReloadRestart
    ));
    assert!(matches!(serve_step(ServeEvent::ServerFinishedOk), ServeAction::ReturnOk));
    match serve_step(ServeEvent::ServerFinishedErr { message: "bind failed".to_string() }) {
        ServeAction::ReturnErr { message } => assert_eq!(message, "bind failed"),
        _ => panic!("expected the error to be returned"),
    }
}

#[test]
fn test_should_reload() {
    assert!(should_reload(&WatchEvent::CloseAfterWrite));
    assert!(!should_reload(&WatchEvent::OtherChange));
}

#[test]
fn test_render_error_messages() {
    let e = RenderError::WidgetNotFound { widget: "test/nope".to_string() };
    assert_eq!(e.message(), "Widget not found: test/nope");
    let e = RenderError::CssClassNotFound { class: "test/ghost".to_string() };
    assert_eq!(e.message(), "CSS class not found: test/ghost");
    let e = RenderError::DataError { message: "Key not found".to_string() };
    assert_eq!(e.message(), "Key not found");
}

#[test]
fn test_details_new() {
    let d = page_viewer::types::Details::new("Page definition saved".to_string());
    assert_eq!(d.details, "Page definition saved");
}

#[test]
fn test_widget_editor_builders() {
    let e = page_viewer::pagetypes::WidgetEditor::new()
        .with_editor_type("text".to_string())
        .with_label("Variable name".to_string())
        .with_name("key".to_string())
        .with_placeholder("Enter variable name".to_string());
    assert_eq!(e.editor_type, "text");
    assert_eq!(e.label, "Variable name");
    assert_eq!(e.name, "key");
    assert_eq!(e.placeholder, "Enter variable name");
    assert!(e.options.is_empty());
}

#[test]
fn test_page_url_and_template_builders() {
    let p = page_viewer::pagetypes::Page::new()
        .with_url("https://example.com/x".to_string())
        .with_template("base".to_string());
    assert_eq!(p.url.as_deref(), Some("https://example.com/x"));
    assert_eq!(p.template.as_deref(), Some("base"));
}
