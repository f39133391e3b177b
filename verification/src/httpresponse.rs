use vstd::prelude::*;

use crate::pagetypes::{LinkDefinition, MetaDefinition};

verus! {

/// The HTTP half of a rendered-page envelope.
pub struct PageRenderHttp {
    pub headers: Vec<(String, String)>,
    pub response_code: u16,
}

/// The head half of a rendered-page envelope.
pub struct PageRenderHead {
    pub css: String,
    pub js: String,
    pub meta: Vec<PageRenderMeta>,
    pub link: Vec<PageRenderLink>,
}

/// One `<meta>` entry of the envelope.
pub struct PageRenderMeta {
    pub name: String,
    pub content: String,
}

/// One `<link>` entry of the envelope.
pub struct PageRenderLink {
    pub href: String,
    pub rel: String,
}

/// Builds the envelope head from a render result: its stylesheet and the
/// page's meta and link entries.
pub fn envelope_head(
    css: String,
    meta: &Vec<MetaDefinition>,
    link: &Vec<LinkDefinition>,
) -> (r: PageRenderHead)
    ensures
        r.css@ == css@,
        r.js@.len() == 0,
        r.meta@.len() == meta@.len(),
        forall|i: int| 0 <= i < meta@.len() ==> (#[trigger] r.meta@[i]).name@ == meta@[i]@.name
            && r.meta@[i].content@ == meta@[i]@.content,
        r.link@.len() == link@.len(),
        forall|i: int| 0 <= i < link@.len() ==> (#[trigger] r.link@[i]).href@ == link@[i]@.href
            && r.link@[i].rel@ == link@[i]@.rel,
{
    let nm = meta.len();
    let mut out_meta: Vec<PageRenderMeta> = Vec::new();
    let mut i: usize = 0;
    while i < nm
        invariant
            i <= nm,
            nm == meta@.len(),
            out_meta@.len() == i,
            forall|j: int| 0 <= j < i ==> (#[trigger] out_meta@[j]).name@ == meta@[j]@.name
                && out_meta@[j].content@ == meta@[j]@.content,
        decreases nm - i,
    {
        out_meta.push(
            PageRenderMeta {
                name: crate::strutil::string_clone(&meta[i].name),
                content: crate::strutil::string_clone(&meta[i].content),
            },
        );
        i = i + 1;
    }
    let nl = link.len();
    let mut out_link: Vec<PageRenderLink> = Vec::new();
    let mut j: usize = 0;
    while j < nl
        invariant
            j <= nl,
            nl == link@.len(),
            out_link@.len() == j,
            forall|q: int| 0 <= q < j ==> (#[trigger] out_link@[q]).href@ == link@[q]@.href
                && out_link@[q].rel@ == link@[q]@.rel,
        decreases nl - j,
    {
        out_link.push(
            PageRenderLink {
                href: crate::strutil::string_clone(&link[j].href),
                rel: crate::strutil::string_clone(&link[j].rel),
            },
        );
        j = j + 1;
    }
    PageRenderHead { css, js: String::new(), meta: out_meta, link: out_link }
}

/// The content type a render request asks for: decided by the path's
/// extension first, then the explicit format parameter, then the `Accept`
/// header's first entry, and `application/json` as the default.
pub open spec fn spec_accept_type(
    extension: Option<Seq<char>>,
    format: Option<Seq<char>>,
    accept: Option<Seq<char>>,
) -> Seq<char> {
    match extension {
        Some(ext) => if ext == "json"@ {
            "application/json"@
        } else if ext == "html"@ {
            "text/html"@
        } else if ext == "css"@ {
            "text/css"@
        } else if ext == "pdf"@ {
            "application/pdf"@
        } else {
            "application/json"@
        },
        None => match format {
            Some(f) => if f == "application/json"@ || f == "text/json"@ {
                "application/json"@
            } else if f == "text/css"@ || f == "css"@ {
                "text/css"@
            } else if f == "application/pdf"@ || f == "pdf"@ {
                "application/pdf"@
            } else if f == "html"@ {
                "text/html"@
            } else {
                "application/json"@
            },
            None => match accept {
                Some(a) => match crate::strutil::first_pos(a, ';') {
                    Some(i) => a.take(i),
                    None => a,
                },
                None => "application/json"@,
            },
        },
    }
}

/// Decides the response content type for a render request.
pub fn accept_type(extension: Option<&String>, format: Option<&String>, accept: Option<&String>)
    -> (r: String)
    ensures
        r@ == spec_accept_type(
            match extension {
                Some(e) => Some(e@),
                None => None,
            },
            match format {
                Some(f) => Some(f@),
                None => None,
            },
            match accept {
                Some(a) => Some(a@),
                None => None,
            },
        ),
{
    match extension {
        Some(ext) => {
            if crate::strutil::str_eq(ext.as_str(), "json") {
                String::from_str("application/json")
            } else if crate::strutil::str_eq(ext.as_str(), "html") {
                String::from_str("text/html")
            } else if crate::strutil::str_eq(ext.as_str(), "css") {
                String::from_str("text/css")
            } else if crate::strutil::str_eq(ext.as_str(), "pdf") {
                String::from_str("application/pdf")
            } else {
                String::from_str("application/json")
            }
        },
        None => match format {
            Some(f) => {
                if crate::strutil::str_eq(f.as_str(), "application/json") || crate::strutil::str_eq(f.as_str(),
                    "text/json",
                ) {
                    String::from_str("application/json")
                } else if crate::strutil::str_eq(f.as_str(), "text/css") || crate::strutil::str_eq(f.as_str(),
                    "css",
                ) {
                    String::from_str("text/css")
                } else if crate::strutil::str_eq(f.as_str(), "application/pdf")
                    || crate::strutil::str_eq(f.as_str(), "pdf") {
                    String::from_str("application/pdf")
                } else if crate::strutil::str_eq(f.as_str(), "html") {
                    String::from_str("text/html")
                } else {
                    String::from_str("application/json")
                }
            },
            None => match accept {
                Some(a) => {
                    match crate::strutil::split_at_char(a.as_str(), ';') {
                        Some((first, _)) => first,
                        None => crate::strutil::string_clone(a),
                    }
                },
                None => String::from_str("application/json"),
            },
        },
    }
}

} // verus!
