use page_viewer::cache::{Cache, CacheHandle, InMemCache};
use page_viewer::dict::StrDict;
use page_viewer::memstore::MemStore;
use page_viewer::pagetypes::{Page, Widget};
use page_viewer::store::{StoreBackend, StoreFactory};
use page_viewer::types::{ErrorResponse, StoreError};

fn named_page(title: &str) -> Page {
    Page::new().with_title(title.to_string()).with_path(title.to_string())
}

#[test]
fn test_cache_basic_operations() {
    let mut cache = CacheHandle::Mem(InMemCache::new());
    cache.set("test_key", "test_value");
    let ret = cache.get("test_key");
    assert_eq!(ret, Some("test_value".to_string()));
    let ret = cache.delete("test_key");
    assert_eq!(ret, Some(()));

    let ret = cache.get("test_key");
    assert_eq!(ret, None);
    let ret = cache.delete("test_key");
    assert_eq!(ret, None);
}

#[test]
fn test_federation_fallback() {
    // Store `a` is empty; store `b` holds `home`. The piped spec reads from
    // `b`, and the single-store spec reports the page as missing.
    let a = MemStore::new("a");
    let mut b = MemStore::new("b");
    b.add_page("home".to_string(), named_page("Home"));

    let mut sf = StoreFactory::new();
    sf.add_store("a", StoreBackend::Mem(a));
    sf.add_store("b", StoreBackend::Mem(b));

    let hit = sf.load_page_definition("a|b/home").unwrap();
    assert_eq!(hit.title, "Home");

    let miss = sf.load_page_definition("a/home");
    assert!(matches!(miss, Err(StoreError::PageNotFound { .. })));

    let invalid = sf.load_page_definition("nopath");
    assert!(matches!(invalid, Err(StoreError::InvalidPath { .. })));
}

#[test]
fn test_page_list_store_field() {
    let mut a = MemStore::new("a");
    a.add_page("one".to_string(), named_page("One"));
    let mut b = MemStore::new("b");
    b.add_page("two".to_string(), named_page("Two"));
    b.add_page("_tpl".to_string(), named_page("Tpl"));

    let mut sf = StoreFactory::new();
    sf.add_store("a", StoreBackend::Mem(a));
    sf.add_store("b", StoreBackend::Mem(b));

    let all = sf.get_page_list(0, 10, &StrDict::new());
    assert_eq!(all.count, 3);
    assert_eq!(all.results.len(), 3);
    assert_eq!(all.results[0].store, "a");
    assert_eq!(all.results[0].id, "one");
    assert_eq!(all.results[1].store, "b");
    assert_eq!(all.results[2].store, "b");

    let mut only_b = StrDict::new();
    only_b.insert("store".to_string(), "b".to_string());
    let b_list = sf.get_page_list(0, 10, &only_b);
    assert_eq!(b_list.count, 2);
    assert!(b_list.results.iter().all(|p| p.store == "b"));

    let mut templates = StrDict::new();
    templates.insert("type".to_string(), "template".to_string());
    let t_list = sf.get_page_list(0, 10, &templates);
    assert_eq!(t_list.count, 1);
    assert_eq!(t_list.results[0].id, "_tpl");

    let mut pages_only = StrDict::new();
    pages_only.insert("type".to_string(), "page".to_string());
    let p_list = sf.get_page_list(0, 10, &pages_only);
    assert_eq!(p_list.count, 2);
}

#[test]
fn test_page_list_pagination() {
    let mut a = MemStore::new("a");
    a.add_page("p1".to_string(), named_page("P1"));
    a.add_page("p2".to_string(), named_page("P2"));
    a.add_page("p3".to_string(), named_page("P3"));

    let mut sf = StoreFactory::new();
    sf.add_store("a", StoreBackend::Mem(a));

    let slice = sf.get_page_list(1, 1, &StrDict::new());
    assert_eq!(slice.count, 3);
    assert_eq!(slice.results.len(), 1);
    assert_eq!(slice.results[0].id, "p2");

    let past_end = sf.get_page_list(5, 10, &StrDict::new());
    assert_eq!(past_end.count, 3);
    assert!(past_end.results.is_empty());
}

#[test]
fn test_widget_catalog_qualifies_names() {
    let mut a = MemStore::new("a");
    a.add_widget(Widget {
        name: "text".to_string(),
        description: "d".to_string(),
        icon: "i".to_string(),
        html: "<b>{{data.x}}</b>".to_string(),
        css: ".x {}".to_string(),
        editor: Vec::new(),
    });
    let mut sf = StoreFactory::new();
    sf.add_store("a", StoreBackend::Mem(a));
    sf.add_store(
        "code",
        StoreBackend::Code(page_viewer::codestore::CodeStore::new("code")),
    );

    let list = sf.get_widget_list();
    assert_eq!(list.count, 3);
    assert_eq!(list.results[0].name, "a/text");
    assert_eq!(list.results[0].html, "");
    assert_eq!(list.results[0].css, "");
    assert_eq!(list.results[1].name, "code/static_context");
    assert_eq!(list.results[2].name, "code/url_context");
}

#[test]
fn test_widget_load_through_federation() {
    let mut sf = StoreFactory::new();
    sf.add_store(
        "code",
        StoreBackend::Code(page_viewer::codestore::CodeStore::new("code")),
    );
    let w = sf.load_widget_definition("code/static_context").unwrap().unwrap();
    assert_eq!(w.name, "static_context");
    assert_eq!(w.html, "{% for child in context.children %}{{child}}{% endfor %}");
    assert_eq!(w.editor.len(), 3);

    let none = sf.load_widget_definition("code/nothing_here").unwrap();
    assert!(none.is_none());
}

#[test]
fn test_save_and_delete_page() {
    let mut sf = StoreFactory::new();
    sf.add_store("mem", StoreBackend::Mem(MemStore::new("mem")));

    sf.save_page_definition("mem/home", &named_page("Home")).unwrap();
    let got = sf.load_page_definition("mem/home").unwrap();
    assert_eq!(got.title, "Home");

    // Overwrite in place.
    sf.save_page_definition("mem/home", &named_page("Home2")).unwrap();
    let got2 = sf.load_page_definition("mem/home").unwrap();
    assert_eq!(got2.title, "Home2");

    assert_eq!(sf.delete_page_definition("mem/home").unwrap(), true);
    assert_eq!(sf.delete_page_definition("mem/home").unwrap(), false);
    assert!(sf.load_page_definition("mem/home").is_err());

    let missing_store = sf.save_page_definition("ghost/home", &named_page("x"));
    assert!(matches!(missing_store, Err(StoreError::StoreNotFound { .. })));
}

#[test]
fn test_store_list() {
    let mut sf = StoreFactory::new();
    sf.add_store("a", StoreBackend::Mem(MemStore::new("a")));
    sf.add_store("b", StoreBackend::Mem(MemStore::new("b")));
    assert_eq!(sf.get_store_list(), vec!["a".to_string(), "b".to_string()]);
}

#[test]
fn test_store_error_codes() {
    let e = StoreError::PageNotFound { path: "a/b".to_string() };
    assert_eq!(e.error_code(), "PAGE_NOT_FOUND");
    assert_eq!(e.http_status(), 404);
    let e = StoreError::StoreNotFound { store: "a".to_string() };
    assert_eq!(e.error_code(), "STORE_NOT_FOUND");
    assert_eq!(e.http_status(), 404);
    let e = StoreError::InvalidPath { path: "nope".to_string() };
    assert_eq!(e.error_code(), "INVALID_PATH");
    assert_eq!(e.http_status(), 400);
    let e = StoreError::Internal { message: "boom".to_string() };
    assert_eq!(e.error_code(), "INTERNAL_ERROR");
    assert_eq!(e.http_status(), 500);
}

#[test]
fn test_error_response_from_store_error() {
    let e = StoreError::PageNotFound { path: "a/b".to_string() };
    let r = ErrorResponse::from_store_error(&e);
    assert_eq!(r.details, "Page 'a/b' not found");
    assert_eq!(r.code, "PAGE_NOT_FOUND");
    assert_eq!(r.status, 404);
    assert_eq!(r.path.as_deref(), Some("a/b"));
    assert!(r.store.is_none());

    let e = StoreError::StoreNotFound { store: "ghost".to_string() };
    let r = ErrorResponse::from_store_error(&e);
    assert_eq!(r.details, "Store 'ghost' not found");
    assert_eq!(r.store.as_deref(), Some("ghost"));
    assert!(r.path.is_none());

    let e = StoreError::InvalidPath { path: "nope".to_string() };
    let r = ErrorResponse::from_store_error(&e);
    assert_eq!(r.details, "Invalid path format: nope");
    assert_eq!(r.status, 400);
}

#[test]
fn test_file_store_flags_and_lookup() {
    let config = page_viewer::config::StoreConfig {
        name: "files".to_string(),
        store_type: "file".to_string(),
        url: String::new(),
        path: "/srv/pages/".to_string(),
        tags: vec!["widgets".to_string(), "pages".to_string()],
    };
    let mut fs = page_viewer::filestore::FileStore::new(&config);
    assert!(fs.has_widgets);
    assert!(!fs.has_css_classes);
    assert!(fs.has_pages);

    fs.load_widgets(vec![Widget {
        name: "box".to_string(),
        description: String::new(),
        icon: String::new(),
        html: "<div/>".to_string(),
        css: String::new(),
        editor: Vec::new(),
    }]);
    assert!(fs.load_widget_definition("box").is_some());
    assert!(fs.load_widget_definition("other").is_none());

    let id = fs.page_id_of("/srv/pages/blog/intro.yaml").unwrap();
    assert_eq!(id, "blog/intro");
    assert!(fs.page_id_of("/elsewhere/intro.yaml").is_none());
    assert!(fs.page_id_of("/srv/pages/notes.txt").is_none());

    let tpl = Some("template".to_string());
    assert!(page_viewer::filestore::FileStore::filter_keeps(
        tpl.as_ref(),
        "blog/_draft"
    ));
    assert!(!page_viewer::filestore::FileStore::filter_keeps(
        tpl.as_ref(),
        "blog/post"
    ));
    let pg = Some("page".to_string());
    assert!(page_viewer::filestore::FileStore::filter_keeps(
        pg.as_ref(),
        "blog/post"
    ));
    assert!(!page_viewer::filestore::FileStore::filter_keeps(
        pg.as_ref(),
        "blog/_draft"
    ));
}

#[test]
fn test_add_store_replaces_existing_name() {
    let mut old_backend = MemStore::new("test");
    old_backend.add_widget(Widget {
        name: "w".to_string(),
        description: "old".to_string(),
        icon: String::new(),
        html: "<i/>".to_string(),
        css: String::new(),
        editor: Vec::new(),
    });
    let mut new_backend = MemStore::new("test");
    new_backend.add_widget(Widget {
        name: "w".to_string(),
        description: "new".to_string(),
        icon: String::new(),
        html: "<b/>".to_string(),
        css: String::new(),
        editor: Vec::new(),
    });

    let mut sf = StoreFactory::new();
    sf.add_store("test", StoreBackend::Mem(old_backend));
    sf.add_store("test", StoreBackend::Mem(new_backend));

    // The lookup serves the replacement, and listings see exactly one store.
    let w = sf.load_widget_definition("test/w").unwrap().unwrap();
    assert_eq!(w.description, "new");
    assert_eq!(sf.get_store_list(), vec!["test".to_string()]);
    let catalog = sf.get_widget_list();
    assert_eq!(catalog.count, 1);
    assert_eq!(catalog.results[0].name, "test/w");
}

#[test]
fn test_piped_store_spec_rejected_on_writes() {
    let mut sf = StoreFactory::new();
    sf.add_store("a", StoreBackend::Mem(MemStore::new("a")));
    sf.add_store("b", StoreBackend::Mem(MemStore::new("b")));

    let save = sf.save_page_definition("a|b/x", &named_page("x"));
    assert!(matches!(save, Err(StoreError::InvalidPath { .. })));
    let delete = sf.delete_page_definition("a|b/x");
    assert!(matches!(delete, Err(StoreError::InvalidPath { .. })));
}

#[test]
fn test_cache_through_trait() {
    let mut boxed: Box<dyn Cache> = Box::new(InMemCache::new());
    boxed.set("k", "v");
    assert_eq!(boxed.get("k"), Some("v".to_string()));
    assert_eq!(boxed.delete("k"), Some(()));
    assert_eq!(boxed.delete("k"), None);
}
