use vstd::prelude::*;

use crate::cache::CacheHandle;
use crate::strutil::str_eq;
use crate::json::{parse_json, obj_bind, spec_obj_bind, json_parsed, Json, JsonV};
use crate::pagetypes::{Element, Widget, WidgetEditor, WidgetEditorV, WidgetResults, WidgetV};
use crate::types::{RenderError, RenderErrorV};

verus! {

/// The synthetic backend that offers the two built-in context-injecting
/// widgets.
pub struct CodeStore {
    pub name: String,
}

/// The built-in `static_context` widget.
pub open spec fn static_context_widget_v() -> WidgetV {
    WidgetV {
        name: "static_context"@,
        description: "Static context"@,
        html: "{% for child in context.children %}{{child}}{% endfor %}"@,
        css: Seq::empty(),
        icon: "static_context"@,
        editor: seq![
            WidgetEditorV {
                editor_type: "description"@,
                label: "Description"@,
                name: Seq::empty(),
                placeholder:
                    "This variable will be added to the context for the children of this widget, and can be accessed in the template code"@,
                options: Seq::empty(),
            },
            WidgetEditorV {
                editor_type: "text"@,
                label: "Variable name"@,
                name: "key"@,
                placeholder: "Enter variable name"@,
                options: Seq::empty(),
            },
            WidgetEditorV {
                editor_type: "textarea"@,
                label: "Static JSON value"@,
                name: "value"@,
                placeholder: "Enter static JSON code"@,
                options: Seq::empty(),
            },
        ],
    }
}

/// The built-in `url_context` widget.
pub open spec fn url_context_widget_v() -> WidgetV {
    WidgetV {
        name: "url_context"@,
        description: "URL context"@,
        html: "{% for child in context.children %}{{child}}{% endfor %}"@,
        css: Seq::empty(),
        icon: "url_context"@,
        editor: seq![
            WidgetEditorV {
                editor_type: "text"@,
                label: "Variable name"@,
                name: "key"@,
                placeholder: "Enter variable name"@,
                options: Seq::empty(),
            },
            WidgetEditorV {
                editor_type: "text"@,
                label: "URL"@,
                name: "url"@,
                placeholder: "Enter URL"@,
                options: Seq::empty(),
            },
        ],
    }
}

/// What the code backend serves for each widget path.
pub open spec fn code_widget(path: Seq<char>) -> Option<WidgetV> {
    if path == "static_context"@ {
        Some(static_context_widget_v())
    } else if path == "url_context"@ {
        Some(url_context_widget_v())
    } else {
        None
    }
}

impl CodeStore {
    pub fn new(name: &str) -> (r: CodeStore)
        ensures
            r.name@ == name@,
    {
        CodeStore { name: String::from_str(name) }
    }

    /// Serves the two built-in widget definitions.
    pub fn load_widget_definition(&self, path: &str) -> (r: Option<Widget>)
        ensures
            match r {
                Some(w) => code_widget(path@) == Some(w@),
                None => code_widget(path@) == None::<WidgetV>,
            },
    {
        if str_eq(path, "static_context") {
            let w = Widget {
                name: String::from_str("static_context"),
                description: String::from_str("Static context"),
                html: String::from_str("{% for child in context.children %}{{child}}{% endfor %}"),
                css: String::new(),
                editor: static_context_editors(),
                icon: String::from_str("static_context"),
            };
            proof {
                assert(w@ =~~= static_context_widget_v());
            }
            Some(w)
        } else if str_eq(path, "url_context") {
            let w = Widget {
                name: String::from_str("url_context"),
                description: String::from_str("URL context"),
                html: String::from_str("{% for child in context.children %}{{child}}{% endfor %}"),
                css: String::new(),
                editor: url_context_editors(),
                icon: String::from_str("url_context"),
            };
            proof {
                assert(w@ =~~= url_context_widget_v());
            }
            Some(w)
        } else {
            None
        }
    }

    /// Lists the two built-in widgets.
    pub fn get_widget_list(&self) -> (r: WidgetResults)
        ensures
            r.count == 2,
            r.results@.len() == 2,
            r.results@[0]@ == static_context_widget_v(),
            r.results@[1]@ == url_context_widget_v(),
    {
        let a = self.load_widget_definition("static_context");
        let b = self.load_widget_definition("url_context");
        proof {
            reveal_strlit("static_context");
            reveal_strlit("url_context");
        }
        match (a, b) {
            (Some(wa), Some(wb)) => {
                let mut results: Vec<Widget> = Vec::new();
                results.push(wa);
                results.push(wb);
                WidgetResults { count: 2, results }
            },
            _ => {
                proof {
                    assert(false);
                }
                WidgetResults { count: 2, results: Vec::new() }
            },
        }
    }
}

fn static_context_editors() -> (r: Vec<WidgetEditor>)
    ensures
        r@.map_values(|e: WidgetEditor| e@) =~= static_context_widget_v().editor,
{
    let mut r: Vec<WidgetEditor> = Vec::new();
    r.push(
        WidgetEditor::new().with_editor_type(String::from_str("description")).with_label(
            String::from_str("Description"),
        ).with_placeholder(
            String::from_str(
                "This variable will be added to the context for the children of this widget, and can be accessed in the template code",
            ),
        ),
    );
    r.push(
        WidgetEditor::new().with_editor_type(String::from_str("text")).with_label(
            String::from_str("Variable name"),
        ).with_name(String::from_str("key")).with_placeholder(
            String::from_str("Enter variable name"),
        ),
    );
    r.push(
        WidgetEditor::new().with_editor_type(String::from_str("textarea")).with_label(
            String::from_str("Static JSON value"),
        ).with_name(String::from_str("value")).with_placeholder(
            String::from_str("Enter static JSON code"),
        ),
    );
    proof {
        assert(r@.map_values(|e: WidgetEditor| e@) =~~= static_context_widget_v().editor);
    }
    r
}

fn url_context_editors() -> (r: Vec<WidgetEditor>)
    ensures
        r@.map_values(|e: WidgetEditor| e@) =~= url_context_widget_v().editor,
{
    let mut r: Vec<WidgetEditor> = Vec::new();
    r.push(
        WidgetEditor::new().with_editor_type(String::from_str("text")).with_label(
            String::from_str("Variable name"),
        ).with_name(String::from_str("key")).with_placeholder(
            String::from_str("Enter variable name"),
        ),
    );
    r.push(
        WidgetEditor::new().with_editor_type(String::from_str("text")).with_label(
            String::from_str("URL"),
        ).with_name(String::from_str("url")).with_placeholder(String::from_str("Enter URL")),
    );
    proof {
        assert(r@.map_values(|e: WidgetEditor| e@) =~~= url_context_widget_v().editor);
    }
    r
}

/// What `static_context` binds for its children: the element's `value` datum
/// (defaulting to `null`) parsed as JSON and bound under the `key` datum.
pub open spec fn spec_static_context(
    data: Seq<(Seq<char>, Seq<char>)>,
    ctx: JsonV,
) -> Result<JsonV, RenderErrorV> {
    let vs = match crate::dict::entries_get(data, "value"@) {
        Some(v) => v,
        None => "null"@,
    };
    match json_parsed(vs) {
        Err(m) => Err(RenderErrorV::DataError { message: m }),
        Ok(j) => match crate::dict::entries_get(data, "key"@) {
            None => Err(RenderErrorV::DataError { message: "Key not found"@ }),
            Some(k) => Ok(spec_obj_bind(k, j, ctx)),
        },
    }
}

/// What `url_context` binds once the body for its URL is known.
pub open spec fn spec_url_body(key: Seq<char>, body: Seq<char>, ctx: JsonV) -> Result<
    JsonV,
    RenderErrorV,
> {
    match json_parsed(body) {
        Err(m) => Err(RenderErrorV::DataError { message: m }),
        Ok(j) => Ok(spec_obj_bind(key, j, ctx)),
    }
}

/// The widget segment of a qualified name: the part between the first and
/// second slash, or the whole remainder when there is no second slash.
pub open spec fn nested_kind(w: Seq<char>) -> Seq<char> {
    match crate::strutil::spec_split_at(w, '/') {
        None => "??"@,
        Some((_, rest)) => match crate::strutil::spec_split_at(rest, '/') {
            None => rest,
            Some((seg, _)) => seg,
        },
    }
}

impl CodeStore {
    /// Derives the child-facing context of a `static_context` element.
    pub fn static_context(element: &Element, ctx: &Json) -> (r: Result<Json, RenderError>)
        ensures
            match r {
                Ok(c) => spec_static_context(element@.data, ctx@) == Ok::<JsonV, RenderErrorV>(
                    c@,
                ),
                Err(e) => spec_static_context(element@.data, ctx@) == Err::<JsonV, RenderErrorV>(
                    e@,
                ),
            },
    {
        let value_json = match element.data.get("value") {
            Some(v) => parse_json(v.as_str()),
            None => parse_json("null"),
        };
        match value_json {
            Err(m) => Err(RenderError::DataError { message: m }),
            Ok(j) => match element.data.get("key") {
                None => Err(
                    RenderError::DataError { message: String::from_str("Key not found") },
                ),
                Some(k) => Ok(obj_bind(k.as_str(), j, ctx)),
            },
        }
    }

    /// Finishes a `url_context` derivation once the body for its URL is
    /// known: parses the body and binds it under `key`.
    pub fn url_context_with_body(key: &str, body: &str, ctx: &Json) -> (r: Result<
        Json,
        RenderError,
    >)
        ensures
            match r {
                Ok(c) => spec_url_body(key@, body@, ctx@) == Ok::<JsonV, RenderErrorV>(c@),
                Err(e) => spec_url_body(key@, body@, ctx@) == Err::<JsonV, RenderErrorV>(e@),
            },
    {
        match parse_json(body) {
            Err(m) => Err(RenderError::DataError { message: m }),
            Ok(j) => Ok(obj_bind(key, j, ctx)),
        }
    }

    /// Derives the child-facing context of a `url_context` element: the body
    /// under the element's `url` datum, from the cache or freshly fetched,
    /// parsed as JSON and bound under the `key` datum.
    pub fn url_context(element: &Element, ctx: &Json, cache: &mut CacheHandle) -> (r: Result<
        Json,
        RenderError,
    >)
        ensures
            old(cache).wf() ==> final(cache).wf(),
            (*old(cache)) is Mem ==> (*final(cache)) is Mem,
            (*old(cache)) is Redis ==> *final(cache) == *old(cache),
            match crate::dict::entries_get(element@.data, "url"@) {
                None => (r matches Err(e) && e@ == (RenderErrorV::DataError {
                    message: "URL not found"@,
                })) && *final(cache) == *old(cache),
                Some(u) => match crate::dict::entries_get(element@.data, "key"@) {
                    None => (r matches Err(e) && e@ == (RenderErrorV::DataError {
                        message: "Key not found"@,
                    })) && *final(cache) == *old(cache),
                    Some(k) => {
                        &&& ((*old(cache)) is Mem && old(cache).mem_map().contains_key(u))
                            ==> *final(cache) == *old(cache) && (match r {
                            Ok(c) => spec_url_body(k, old(cache).mem_map()[u], ctx@) == Ok::<
                                JsonV,
                                RenderErrorV,
                            >(c@),
                            Err(e) => spec_url_body(k, old(cache).mem_map()[u], ctx@) == Err::<
                                JsonV,
                                RenderErrorV,
                            >(e@),
                        })
                        &&& ((*old(cache)) is Mem && !old(cache).mem_map().contains_key(u))
                            ==> (match r {
                            Ok(c) => exists|b: Seq<char>|
                                {
                                    &&& #[trigger] spec_url_body(k, b, ctx@) == Ok::<
                                        JsonV,
                                        RenderErrorV,
                                    >(c@)
                                    &&& final(cache).mem_map() == old(cache).mem_map().insert(
                                        u,
                                        b,
                                    )
                                },
                            Err(e) => *final(cache) == *old(cache) || exists|b: Seq<char>|
                                {
                                    &&& #[trigger] spec_url_body(k, b, ctx@) == Err::<
                                        JsonV,
                                        RenderErrorV,
                                    >(e@)
                                    &&& final(cache).mem_map() == old(cache).mem_map().insert(
                                        u,
                                        b,
                                    )
                                },
                        })
                        &&& match r {
                            Ok(c) => exists|b: Seq<char>|
                                spec_url_body(k, b, ctx@) == Ok::<JsonV, RenderErrorV>(c@),
                            Err(_) => true,
                        }
                    },
                },
            },
    {
        let url = match element.data.get("url") {
            None => {
                return Err(RenderError::DataError { message: String::from_str("URL not found") });
            },
            Some(u) => u,
        };
        let key = match element.data.get("key") {
            None => {
                return Err(RenderError::DataError { message: String::from_str("Key not found") });
            },
            Some(k) => k,
        };
        match cache.get(url.as_str()) {
            Some(body) => Self::url_context_with_body(key.as_str(), body.as_str(), ctx),
            None => {
                match http_get_body(url.as_str()) {
                    Err(e) => Err(RenderError::DataError { message: e }),
                    Ok(body) => {
                        cache.set(url.as_str(), body.as_str());
                        let r = Self::url_context_with_body(key.as_str(), body.as_str(), ctx);
                        proof {
                            if (*old(cache)) is Mem {
                                assert(final(cache).mem_map() == old(cache).mem_map().insert(
                                    url@,
                                    body@,
                                ));
                            }
                        }
                        r
                    },
                }
            },
        }
    }

    /// Derives the child-facing context for a context-injecting element,
    /// routed by the widget segment of its qualified name.
    pub fn get_nested_widget_context(
        element: &Element,
        ctx: &Json,
        cache: &mut CacheHandle,
    ) -> (r: Result<Json, RenderError>)
        ensures
            old(cache).wf() ==> final(cache).wf(),
            (*old(cache)) is Mem ==> (*final(cache)) is Mem,
            (*old(cache)) is Redis ==> *final(cache) == *old(cache),
            nested_kind(element@.widget) == "static_context"@ ==> *final(cache) == *old(cache)
                && (match r {
                Ok(c) => spec_static_context(element@.data, ctx@) == Ok::<JsonV, RenderErrorV>(
                    c@,
                ),
                Err(e) => spec_static_context(element@.data, ctx@) == Err::<JsonV, RenderErrorV>(
                    e@,
                ),
            }),
            nested_kind(element@.widget) != "static_context"@ && nested_kind(element@.widget)
                != "url_context"@ ==> (r matches Err(e) && e@ == (RenderErrorV::DataError {
                message: "Widget not found: "@ + nested_kind(element@.widget),
            })) && *final(cache) == *old(cache),
            nested_kind(element@.widget) == "url_context"@ ==> match r {
                Ok(c) => match crate::dict::entries_get(element@.data, "key"@) {
                    Some(k) => exists|b: Seq<char>|
                        spec_url_body(k, b, ctx@) == Ok::<JsonV, RenderErrorV>(c@),
                    None => false,
                },
                Err(_) => true,
            },
    {
        let seg: String = match crate::strutil::split_at_char(element.widget.as_str(), '/') {
            None => String::from_str("??"),
            Some((_, rest)) => match crate::strutil::split_at_char(rest.as_str(), '/') {
                None => rest,
                Some((seg, _)) => seg,
            },
        };
        proof {
            assert(seg@ == nested_kind(element@.widget));
            reveal_strlit("static_context");
            reveal_strlit("url_context");
        }
        if str_eq(seg.as_str(), "static_context") {
            Self::static_context(element, ctx)
        } else if str_eq(seg.as_str(), "url_context") {
            Self::url_context(element, ctx, cache)
        } else {
            let message = String::from_str("Widget not found: ").concat(seg.as_str());
            Err(RenderError::DataError { message })
        }
    }
}

/// Fetches a URL, asking for JSON with the fixed client identity.
/// Relies on `reqwest::blocking`: the outcome depends on the network, so
/// nothing is promised of it. The blocking client refuses to run on a thread
/// that is driving an async executor, so a caller inside such a runtime must
/// move the render onto a blocking thread first, as the bundled runner does.
#[verifier::external_body]
fn http_get_body(url: &str) -> Result<String, String> {
    let client = reqwest::blocking::Client::new();
    let response = client.get(url).header(reqwest::header::ACCEPT, "application/json").header(
        reqwest::header::USER_AGENT,
        "page-viewer",
    ).send();
    match response {
        Ok(resp) => match resp.text() {
            Ok(body) => Ok(body),
            Err(e) => Err(e.to_string()),
        },
        Err(e) => Err(e.to_string()),
    }
}

} // verus!
