use vstd::prelude::*;
use vstd::multiset::Multiset;

use crate::dict::{entries_map, entries_unique, StrDict};
use crate::json::{Json, JsonV};
use crate::pagetypes::{PageHead, PageHeadV};
use crate::strutil::{
    join_strings, join_with, lex_leq, sort_strings, starts_with, starts_with_dash_dash, strs_of,
};
use crate::store::{sf_load_class, sf_load_widget, BackendV, StoreFactory};
use crate::pagetypes::{ElemV, Element, Page, WidgetV, Widget};
use crate::types::{spec_render_error_message, RenderError, RenderErrorV};

verus! {

/// The result of one rendering pass: the assembled body, the aggregated CSS
/// keyed as the pass wrote it, the page head, and the errors debug mode
/// collected.
pub struct RenderedPage {
    pub path: String,
    pub store: String,
    pub title: String,
    pub body: String,
    pub headers: StrDict,
    pub response_code: u16,
    pub head: PageHead,
    pub css_variables: StrDict,
    pub errors: Vec<RenderError>,
}

impl RenderedPage {
    pub fn new() -> (r: RenderedPage)
        ensures
            r.path@.len() == 0,
            r.store@.len() == 0,
            r.title@.len() == 0,
            r.body@.len() == 0,
            r.headers@.len() == 0,
            r.response_code == 200,
            r.head@.meta is None,
            r.head@.link is None,
            r.css_variables@ =~= Seq::<(Seq<char>, Seq<char>)>::empty(),
            r.css_variables.wf(),
            r.errors@.len() == 0,
    {
        RenderedPage {
            path: String::new(),
            store: String::new(),
            title: String::new(),
            body: String::new(),
            headers: StrDict::new(),
            response_code: 200,
            head: PageHead::new(),
            css_variables: StrDict::new(),
            errors: Vec::new(),
        }
    }

    /// The aggregated CSS: one fragment per entry, sorted lexicographically
    /// and joined with blank lines. A key with two leading dashes emits its
    /// value verbatim; any other key wraps its value as a block for that
    /// selector.
    pub fn get_css(&self) -> (r: String)
        ensures
            r@ == css_string_of(self.css_variables@),
    {
        let n = self.css_variables.len();
        let mut frags: Vec<String> = Vec::new();
        let mut i: usize = 0;
        while i < n
            invariant
                i <= n,
                n == self.css_variables@.len(),
                frags@.len() == i,
                forall|j: int| 0 <= j < i ==> (#[trigger] frags@[j])@ == css_fragment(
                    self.css_variables@[j],
                ),
            decreases n - i,
        {
            let k = self.css_variables.key_at(i);
            if starts_with_dash_dash(k.as_str()) {
                let v = self.css_variables.val_at(i);
                frags.push(crate::strutil::string_clone(v));
            } else {
                let v = self.css_variables.val_at(i);
                let frag = crate::strutil::string_clone(k).concat(" {\n ").concat(
                    v.as_str(),
                ).concat("\n }\n");
                frags.push(frag);
            }
            i = i + 1;
        }
        proof {
            assert(strs_of(frags@) =~= css_fragments(self.css_variables@));
        }
        let sorted = sort_strings(&frags);
        join_strings(&sorted, "\n")
    }

    /// A complete HTML document: the fixed wrapper around the aggregated CSS
    /// and the body.
    pub fn render_full_html_page(&self) -> (r: String)
        ensures
            r@ == "\n<!DOCTYPE html>\n<html>\n<head>\n<meta name=\"viewport\" content=\"width=device-width, initial-scale=1.0\">\n<style>\n"@
                + css_string_of(self.css_variables@)
                + "\n</style>\n</head>\n<body>\n"@ + self.body@ + "\n</body>\n</html>"@,
    {
        let css = self.get_css();
        let mut r = String::from_str(
            "\n<!DOCTYPE html>\n<html>\n<head>\n<meta name=\"viewport\" content=\"width=device-width, initial-scale=1.0\">\n<style>\n",
        );
        r.append(css.as_str());
        r.append("\n</style>\n</head>\n<body>\n");
        r.append(self.body.as_str());
        r.append("\n</body>\n</html>");
        r
    }
}

/// The fragment one CSS entry emits.
pub open spec fn css_fragment(e: (Seq<char>, Seq<char>)) -> Seq<char> {
    if starts_with(e.0, seq!['-', '-']) {
        e.1
    } else {
        e.0 + " {\n "@ + e.1 + "\n }\n"@
    }
}

/// The fragments of all entries, in entry order.
pub open spec fn css_fragments(entries: Seq<(Seq<char>, Seq<char>)>) -> Seq<Seq<char>> {
    entries.map_values(|e: (Seq<char>, Seq<char>)| css_fragment(e))
}

/// The emitted CSS: the fragments sorted lexicographically, joined by blank
/// lines.
pub open spec fn css_string_of(entries: Seq<(Seq<char>, Seq<char>)>) -> Seq<char> {
    join_with(css_fragments(entries).sort_by(lex_leq()), "\n"@)
}

/// How often `p` occurs among entries with unique keys: once when the
/// described map binds `p`'s key to `p`'s value, never otherwise.
proof fn lemma_unique_entry_count(s: Seq<(Seq<char>, Seq<char>)>, p: (Seq<char>, Seq<char>))
    requires
        entries_unique(s),
    ensures
        s.to_multiset().count(p) == if entries_map(s).contains_key(p.0) && entries_map(s)[p.0]
            == p.1 {
            1int
        } else {
            0int
        },
    decreases s.len(),
{
    broadcast use vstd::seq_lib::group_to_multiset_ensures;
    broadcast use vstd::multiset::group_multiset_axioms;

    if s.len() == 0 {
        assert(s.to_multiset() =~= Multiset::<(Seq<char>, Seq<char>)>::empty());
    } else {
        let rest = s.drop_first();
        assert(entries_unique(rest));
        lemma_unique_entry_count(rest, p);
        assert(s =~= rest.insert(0, s[0]));
        lemma_entries_insert_count(rest, s[0], p);
        if p.0 == s[0].0 {
            assert(!entries_map(rest).contains_key(p.0)) by {
                assert(forall|j: int| 0 <= j < rest.len() ==> rest[j].0 != p.0);
                lemma_missing_key(rest, p.0);
            }
        }
    }
}

/// Inserting one element adds one occurrence of it to the multiset.
proof fn lemma_entries_insert_count(
    s: Seq<(Seq<char>, Seq<char>)>,
    x: (Seq<char>, Seq<char>),
    p: (Seq<char>, Seq<char>),
)
    ensures
        s.insert(0, x).to_multiset().count(p) == s.to_multiset().count(p) + if p == x {
            1int
        } else {
            0int
        },
{
    broadcast use vstd::seq_lib::group_to_multiset_ensures;
    broadcast use vstd::multiset::group_multiset_axioms;

    assert(s.insert(0, x).to_multiset() =~= s.to_multiset().insert(x)) by {
        crate::renderer::lemma_seq_insert_multiset(s, 0, x);
    }
}

/// `Seq::insert` adds one occurrence to the multiset.
pub proof fn lemma_seq_insert_multiset(
    s: Seq<(Seq<char>, Seq<char>)>,
    i: int,
    x: (Seq<char>, Seq<char>),
)
    requires
        0 <= i <= s.len(),
    ensures
        s.insert(i, x).to_multiset() =~= s.to_multiset().insert(x),
{
    broadcast use vstd::seq_lib::group_to_multiset_ensures;
    broadcast use vstd::multiset::group_multiset_axioms;

    let t = s.insert(i, x);
    assert(t =~= s.take(i) + (seq![x] + s.skip(i)));
    assert(s =~= s.take(i) + s.skip(i));
    vstd::seq_lib::lemma_multiset_commutative(s.take(i), seq![x] + s.skip(i));
    vstd::seq_lib::lemma_multiset_commutative(seq![x], s.skip(i));
    vstd::seq_lib::lemma_multiset_commutative(s.take(i), s.skip(i));
    assert(seq![x].to_multiset() =~= Multiset::<(Seq<char>, Seq<char>)>::empty().insert(x)) by {
        assert(seq![x] =~= Seq::<(Seq<char>, Seq<char>)>::empty().push(x));
    }
}

/// A key no entry holds is missing from the described map.
proof fn lemma_missing_key(s: Seq<(Seq<char>, Seq<char>)>, k: Seq<char>)
    requires
        forall|j: int| 0 <= j < s.len() ==> s[j].0 != k,
    ensures
        !entries_map(s).contains_key(k),
    decreases s.len(),
{
    if s.len() > 0 {
        lemma_missing_key(s.drop_first(), k);
    }
}

/// Two entry sequences with unique keys that describe the same map hold the
/// same entries, as a multiset.
proof fn lemma_same_map_same_multiset(
    e1: Seq<(Seq<char>, Seq<char>)>,
    e2: Seq<(Seq<char>, Seq<char>)>,
)
    requires
        entries_unique(e1),
        entries_unique(e2),
        entries_map(e1) == entries_map(e2),
    ensures
        e1.to_multiset() =~= e2.to_multiset(),
{
    assert forall|p: (Seq<char>, Seq<char>)| true implies #[trigger] e1.to_multiset().count(p)
        == e2.to_multiset().count(p) by {
        lemma_unique_entry_count(e1, p);
        lemma_unique_entry_count(e2, p);
    }
}

/// Mapping a function over sequences with equal multisets yields equal
/// multisets.
proof fn lemma_map_multiset(
    s1: Seq<(Seq<char>, Seq<char>)>,
    s2: Seq<(Seq<char>, Seq<char>)>,
    f: spec_fn((Seq<char>, Seq<char>)) -> Seq<char>,
)
    requires
        s1.to_multiset() == s2.to_multiset(),
    ensures
        s1.map_values(f).to_multiset() =~= s2.map_values(f).to_multiset(),
    decreases s1.len(),
{
    broadcast use vstd::seq_lib::group_to_multiset_ensures;
    broadcast use vstd::multiset::group_multiset_axioms;

    if s1.len() == 0 {
        assert(s2.to_multiset().len() == 0);
        assert(s2.len() == 0);
        assert(s1.map_values(f) =~= s2.map_values(f));
    } else {
        let x = s1[0];
        assert(s1.to_multiset().count(x) > 0) by {
            assert(s1.contains(x));
        }
        assert(s2.to_multiset().count(x) > 0);
        assert(s2.contains(x)) by {
            assert(s2.to_multiset().contains(x));
        }
        let j = choose|j: int| 0 <= j < s2.len() && s2[j] == x;
        let r1 = s1.remove(0);
        let r2 = s2.remove(j);
        assert(r1.to_multiset() =~= s1.to_multiset().remove(x));
        assert(r2.to_multiset() =~= s2.to_multiset().remove(x));
        lemma_map_multiset(r1, r2, f);
        assert(r1.map_values(f) =~= s1.map_values(f).remove(0));
        assert(r2.map_values(f) =~= s2.map_values(f).remove(j));
        assert(s1.map_values(f).remove(0).to_multiset() =~= s1.map_values(f).to_multiset().remove(
            f(x),
        )) by {
            assert(s1.map_values(f)[0] == f(x));
        }
        assert(s2.map_values(f).remove(j).to_multiset() =~= s2.map_values(f).to_multiset().remove(
            f(x),
        )) by {
            assert(s2.map_values(f)[j] == f(x));
        }
        assert forall|y: Seq<char>| true implies #[trigger] s1.map_values(f).to_multiset().count(
            y,
        ) == s2.map_values(f).to_multiset().count(y) by {
            assert(s1.map_values(f).to_multiset().contains(f(x))) by {
                assert(s1.map_values(f)[0] == f(x));
                assert(s1.map_values(f).contains(f(x)));
            }
            assert(s2.map_values(f).to_multiset().contains(f(x))) by {
                assert(s2.map_values(f)[j] == f(x));
                assert(s2.map_values(f).contains(f(x)));
            }
            assert(s1.map_values(f).to_multiset().remove(f(x)).count(y) == s2.map_values(
                f,
            ).to_multiset().remove(f(x)).count(y));
        }
    }
}

#[verifier::external_type_specification]
#[verifier::external_body]
pub struct ExMinijinjaValue(minijinja::Value);

#[verifier::external_type_specification]
#[verifier::external_body]
pub struct ExMinijinjaEnvironment<'a>(minijinja::Environment<'a>);

/// The template environment widgets render in: minijinja with the `markdown`
/// filter.
/// Relies on `minijinja::Environment` and, for the filter, on
/// `pulldown_cmark` turning Markdown text into HTML.
#[verifier::external_body]
fn widget_env() -> minijinja::Environment<'static> {
    let mut env = minijinja::Environment::new();
    env.add_filter(
        "markdown",
        |s: String| -> String {
            let mut html = String::new();
            pulldown_cmark::html::push_html(&mut html, pulldown_cmark::Parser::new(&s));
            html
        },
    );
    env
}

/// Rebuilds a JSON tree as a minijinja value.
/// Relies on `minijinja::Value`'s constructors; a numeric literal goes
/// through `serde_json::Number` so the library never touches the number
/// itself.
#[verifier::external_body]
fn mj_value_of_json(j: &Json) -> minijinja::Value {
    match j {
        Json::Null => minijinja::Value::from(()),
        Json::Bool(b) => minijinja::Value::from(*b),
        Json::Num(s) => serde_json::from_str::<serde_json::Number>(s).map(
            |n| minijinja::Value::from_serialize(&n),
        ).unwrap_or(minijinja::Value::from(())),
        Json::Str(s) => minijinja::Value::from(s.as_str()),
        Json::Arr(items) => minijinja::Value::from(
            items.iter().map(mj_value_of_json).collect::<Vec<_>>(),
        ),
        Json::Obj(entries) => minijinja::Value::from_iter(
            entries.iter().map(|(k, v)| (k.clone(), mj_value_of_json(v))),
        ),
    }
}

/// What rendering a widget template under the given context yields: the
/// output, or the diagnostic it fails with. Both are functions of the
/// template text and the context alone.
pub uninterp spec fn widget_render(tpl: Seq<char>, ctx: JsonV) -> Result<Seq<char>, Seq<char>>;

/// Renders a widget template under the given context, in the environment
/// with the `markdown` filter.
/// Relies on `minijinja::Environment::template_from_str` and
/// `minijinja::Template::render`, which are deterministic in the template
/// and the context value.
#[verifier::external_body]
fn render_widget_template(tpl: &str, ctx: &Json) -> (r: Result<String, String>)
    ensures
        match r {
            Ok(s) => widget_render(tpl@, ctx@) == Ok::<Seq<char>, Seq<char>>(s@),
            Err(e) => widget_render(tpl@, ctx@) == Err::<Seq<char>, Seq<char>>(e@),
        },
{
    let env = widget_env();
    let tmpl = match env.template_from_str(tpl) {
        Ok(t) => t,
        Err(e) => {
            return Err(format!("{:?}", e));
        },
    };
    match tmpl.render(mj_value_of_json(ctx)) {
        Ok(s) => Ok(s),
        Err(e) => Err(format!("{:?}", e)),
    }
}

/// What rendering a data value as a bare template yields; a function of the
/// text and the context alone.
pub uninterp spec fn data_render(tpl: Seq<char>, ctx: JsonV) -> Result<Seq<char>, Seq<char>>;

/// Renders a data value as a template in a bare environment, without the
/// `markdown` filter.
/// Relies on `minijinja::Environment::template_from_str` and
/// `minijinja::Template::render`.
#[verifier::external_body]
fn render_data_template(tpl: &str, ctx: &Json) -> (r: Result<String, String>)
    ensures
        match r {
            Ok(s) => data_render(tpl@, ctx@) == Ok::<Seq<char>, Seq<char>>(s@),
            Err(e) => data_render(tpl@, ctx@) == Err::<Seq<char>, Seq<char>>(e@),
        },
{
    let env = minijinja::Environment::new();
    let tmpl = match env.template_from_str(tpl) {
        Ok(t) => t,
        Err(e) => {
            return Err(e.to_string());
        },
    };
    match tmpl.render(mj_value_of_json(ctx)) {
        Ok(s) => Ok(s),
        Err(e) => Err(e.to_string()),
    }
}

/// The joined `key: value;` lines of an element's style, one per line.
pub open spec fn spec_style_css(style: Seq<(Seq<char>, Seq<char>)>) -> Seq<char> {
    join_with(
        style.map_values(|e: (Seq<char>, Seq<char>)| e.0 + ": "@ + e.1 + ";"@),
        "\n"@,
    )
}

/// The style of an element as CSS declarations, one per line.
pub fn style_css(style: &StrDict) -> (r: String)
    ensures
        r@ == spec_style_css(style@),
{
    let n = style.len();
    let mut lines: Vec<String> = Vec::new();
    let mut i: usize = 0;
    while i < n
        invariant
            i <= n,
            n == style@.len(),
            lines@.len() == i,
            forall|j: int| 0 <= j < i ==> (#[trigger] lines@[j])@ == style@[j].0 + ": "@
                + style@[j].1 + ";"@,
        decreases n - i,
    {
        let k = style.key_at(i);
        let line = crate::strutil::string_clone(k).concat(": ").concat(
            style.val_at(i).as_str(),
        ).concat(";");
        lines.push(line);
        i = i + 1;
    }
    proof {
        assert(strs_of(lines@) =~= style@.map_values(
            |e: (Seq<char>, Seq<char>)| e.0 + ": "@ + e.1 + ";"@,
        ));
    }
    join_strings(&lines, "\n")
}

/// A list of strings as a JSON array value.
pub open spec fn strs_to_jarr(ss: Seq<Seq<char>>) -> JsonV {
    JsonV::Arr(ss.map_values(|s: Seq<char>| JsonV::Str(s)))
}

/// Builds a JSON array of strings.
pub fn strings_to_json(v: &Vec<String>) -> (r: Json)
    ensures
        r@ == strs_to_jarr(strs_of(v@)),
{
    let n = v.len();
    let mut items: Vec<Json> = Vec::new();
    let mut i: usize = 0;
    while i < n
        invariant
            i <= n,
            n == v@.len(),
            items@.len() == i,
            forall|j: int| 0 <= j < i ==> (#[trigger] items@[j])@ == JsonV::Str(v@[j]@),
        decreases n - i,
    {
        items.push(Json::Str(crate::strutil::string_clone(&v[i])));
        i = i + 1;
    }
    let r = Json::Arr(items);
    proof {
        let rv = r@;
        assert(rv matches JsonV::Arr(a) && a =~= strs_of(v@).map_values(
            |s: Seq<char>| JsonV::Str(s),
        ));
        assert(rv =~~= strs_to_jarr(strs_of(v@)));
    }
    r
}

/// The `data` object handed to templates: the element's data values as
/// strings, with the element id appended under `id` unless the data already
/// binds that key.
pub open spec fn spec_data_obj(data: Seq<(Seq<char>, Seq<char>)>, id: Seq<char>) -> JsonV {
    let base = data.map_values(|e: (Seq<char>, Seq<char>)| (e.0, JsonV::Str(e.1)));
    if crate::dict::entries_get(data, "id"@) is Some {
        JsonV::Obj(base)
    } else {
        JsonV::Obj(base.push(("id"@, JsonV::Str(id))))
    }
}

/// Builds the `data` object for a template context.
pub fn data_obj(data: &StrDict, id: &str) -> (r: Json)
    ensures
        r@ == spec_data_obj(data@, id@),
{
    let n = data.len();
    let mut entries: Vec<(String, Json)> = Vec::new();
    let mut i: usize = 0;
    while i < n
        invariant
            i <= n,
            n == data@.len(),
            entries@.len() == i,
            forall|j: int| 0 <= j < i ==> (#[trigger] entries@[j]).0@ == data@[j].0
                && entries@[j].1@ == JsonV::Str(data@[j].1),
        decreases n - i,
    {
        let k = crate::strutil::string_clone(data.key_at(i));
        let v = Json::Str(crate::strutil::string_clone(data.val_at(i)));
        entries.push((k, v));
        i = i + 1;
    }
    let ghost base = data@.map_values(|e: (Seq<char>, Seq<char>)| (e.0, JsonV::Str(e.1)));
    if !data.contains_key("id") {
        let ghost before = entries@;
        entries.push((String::from_str("id"), Json::Str(String::from_str(id))));
        let r = Json::Obj(entries);
        proof {
            let je = crate::json::jentries_of(r@);
            assert(je.len() == base.len() + 1);
            assert forall|j: int| 0 <= j < base.len() implies je[j] == base[j] by {
                assert(entries@[j] == before[j]);
                assert(je[j] == (before[j].0@, crate::json::json_view(before[j].1)));
            }
            assert(entries@.last().1 == Json::Str(entries@.last().1->Str_0));
            assert(je[base.len() as int] == (entries@.last().0@, crate::json::json_view(
                entries@.last().1,
            )));
            assert(je[base.len() as int] == ("id"@, JsonV::Str(id@)));
            assert(je =~= base.push(("id"@, JsonV::Str(id@))));
            assert(r@ =~~= spec_data_obj(data@, id@));
        }
        r
    } else {
        let r = Json::Obj(entries);
        proof {
            assert(crate::json::jentries_of(r@) =~= base);
            assert(r@ =~~= spec_data_obj(data@, id@));
        }
        r
    }
}

/// A two-level template context: the element's data under `data`, the
/// ambient context under `context`.
pub open spec fn spec_wrap_ctx(d: JsonV, c: JsonV) -> JsonV {
    JsonV::Obj(seq![("data"@, d), ("context"@, c)])
}

/// Builds the two-level template context.
pub fn wrap_ctx(d: Json, c: Json) -> (r: Json)
    ensures
        r@ == spec_wrap_ctx(d@, c@),
{
    let ghost dv = d@;
    let ghost cv = c@;
    let mut entries: Vec<(String, Json)> = Vec::new();
    entries.push((String::from_str("data"), d));
    entries.push((String::from_str("context"), c));
    let r = Json::Obj(entries);
    proof {
        assert(crate::json::jentries_of(r@) =~= seq![("data"@, dv), ("context"@, cv)]);
        assert(r@ =~~= spec_wrap_ctx(dv, cv));
    }
    r
}

/// The data values after pre-templating: a value holding template syntax is
/// rendered as a bare template under the outer context, any other passes
/// through; the first failure aborts.
pub open spec fn spec_pre_template(
    data: Seq<(Seq<char>, Seq<char>)>,
    outer: JsonV,
) -> Result<Seq<(Seq<char>, Seq<char>)>, Seq<char>>
    decreases data.len(),
{
    if data.len() == 0 {
        Ok(Seq::empty())
    } else {
        let e0 = data[0];
        let v0 = if crate::strutil::contains_sub(e0.1, "{{"@) || crate::strutil::contains_sub(
            e0.1,
            "{%"@,
        ) {
            data_render(e0.1, outer)
        } else {
            Ok(e0.1)
        };
        match v0 {
            Err(m) => Err(m),
            Ok(nv) => match spec_pre_template(data.drop_first(), outer) {
                Err(m) => Err(m),
                Ok(rest) => Ok(seq![(e0.0, nv)] + rest),
            },
        }
    }
}

/// Pre-templates the element's data values under the outer context.
pub fn pre_template_data(data: &StrDict, outer: &Json) -> (r: Result<StrDict, String>)
    ensures
        match r {
            Ok(d) => spec_pre_template(data@, outer@) == Ok::<
                Seq<(Seq<char>, Seq<char>)>,
                Seq<char>,
            >(d@),
            Err(m) => spec_pre_template(data@, outer@) == Err::<
                Seq<(Seq<char>, Seq<char>)>,
                Seq<char>,
            >(m@),
        },
{
    let n = data.len();
    let mut out: Vec<(String, String)> = Vec::new();
    let mut i: usize = 0;
    proof {
        assert(data@.skip(0) =~= data@);
    }
    while i < n
        invariant
            i <= n,
            n == data@.len(),
            out@.len() == i,
            match spec_pre_template(data@.skip(i as int), outer@) {
                Ok(rest) => spec_pre_template(data@, outer@) == Ok::<
                    Seq<(Seq<char>, Seq<char>)>,
                    Seq<char>,
                >(pairs_view(out@) + rest),
                Err(m) => spec_pre_template(data@, outer@) == Err::<
                    Seq<(Seq<char>, Seq<char>)>,
                    Seq<char>,
                >(m),
            },
        decreases n - i,
    {
        proof {
            assert(data@.skip(i as int)[0] == data@[i as int]);
            assert(data@.skip(i as int).drop_first() =~= data@.skip(i + 1));
        }
        let k = crate::strutil::string_clone(data.key_at(i));
        let v = data.val_at(i);
        let has_syntax = crate::strutil::contains_substr(v.as_str(), "{{")
            || crate::strutil::contains_substr(v.as_str(), "{%");
        let nv: String = if has_syntax {
            match render_data_template(v.as_str(), outer) {
                Ok(s) => s,
                Err(m) => {
                    return Err(m);
                },
            }
        } else {
            crate::strutil::string_clone(v)
        };
        let ghost before = out@;
        out.push((k, nv));
        proof {
            assert(pairs_view(out@) =~= pairs_view(before).push(
                (data@[i as int].0, nv@),
            ));
            assert(pairs_view(before).push((data@[i as int].0, nv@)) + spec_rest_of(
                data@.skip(i + 1),
                outer@,
            ) =~= pairs_view(before) + (seq![(data@[i as int].0, nv@)] + spec_rest_of(
                data@.skip(i + 1),
                outer@,
            )));
        }
        i = i + 1;
    }
    proof {
        assert(data@.skip(n as int).len() == 0);
        assert(spec_pre_template(data@.skip(n as int), outer@) == Ok::<
            Seq<(Seq<char>, Seq<char>)>,
            Seq<char>,
        >(Seq::empty()));
        assert(pairs_view(out@) + Seq::<(Seq<char>, Seq<char>)>::empty() =~= pairs_view(out@));
    }
    let d = StrDict::from_pairs(out);
    proof {
        assert(d@ =~= pairs_view(out@));
    }
    Ok(d)
}

/// The successful tail of pre-templating, used to step the loop above.
pub open spec fn spec_rest_of(data: Seq<(Seq<char>, Seq<char>)>, outer: JsonV) -> Seq<
    (Seq<char>, Seq<char>),
> {
    match spec_pre_template(data, outer) {
        Ok(rest) => rest,
        Err(_) => Seq::empty(),
    }
}

/// The abstract pairs of a key-value vector.
pub open spec fn pairs_view(ps: Seq<(String, String)>) -> Seq<(Seq<char>, Seq<char>)> {
    Seq::new(
        ps.len(),
        |i: int|
            if 0 <= i < ps.len() {
                (ps[i].0@, ps[i].1@)
            } else {
                arbitrary()
            },
    )
}

/// The abstract values of collected rendering errors.
pub open spec fn errs_v(s: Seq<RenderError>) -> Seq<RenderErrorV> {
    s.map_values(|e: RenderError| e@)
}

/// A sequence is a prefix of itself.
proof fn lemma_prefix_refl(s: Seq<RenderErrorV>)
    ensures
        s.is_prefix_of(s),
{
    assert(s =~= s.subrange(0, s.len() as int));
}

/// A prefix stays one after the other sequence grows by one entry.
proof fn lemma_prefix_push(a: Seq<RenderErrorV>, b: Seq<RenderErrorV>, e: RenderErrorV)
    requires
        a.is_prefix_of(b),
    ensures
        a.is_prefix_of(b.push(e)),
{
    assert(b.push(e).subrange(0, a.len() as int) =~= b.subrange(0, a.len() as int));
}

/// Being-a-prefix is transitive.
proof fn lemma_prefix_trans(a: Seq<RenderErrorV>, b: Seq<RenderErrorV>, c: Seq<RenderErrorV>)
    requires
        a.is_prefix_of(b),
        b.is_prefix_of(c),
    ensures
        a.is_prefix_of(c),
{
    assert(c.subrange(0, a.len() as int) =~= c.subrange(0, b.len() as int).subrange(
        0,
        a.len() as int,
    ));
}

/// The error box substituted for an element's output in debug mode.
pub open spec fn error_pre(e: RenderErrorV) -> Seq<char> {
    "<pre style=\"color:red;\">"@ + crate::strutil::html_escaped(spec_render_error_message(e))
        + "</pre>"@
}

/// Builds the debug-mode error box for an error.
pub fn error_fragment(e: &RenderError) -> (r: String)
    ensures
        r@ == error_pre(e@),
{
    let escaped = crate::strutil::html_escape(e.message().as_str());
    String::from_str("<pre style=\"color:red;\">").concat(escaped.as_str()).concat("</pre>")
}

/// What resolving an element's classes yields: the bare class names in
/// order, and the CSS entries extended with one `--<qualified name>` entry
/// per class. A class no store serves fails the resolution, keeping the
/// entries written so far.
pub open spec fn spec_resolve_classes(
    sf: Seq<(Seq<char>, BackendV)>,
    classes: Seq<Seq<char>>,
    css: Seq<(Seq<char>, Seq<char>)>,
) -> (Result<Seq<Seq<char>>, RenderErrorV>, Seq<(Seq<char>, Seq<char>)>)
    decreases classes.len(),
{
    if classes.len() == 0 {
        (Ok(Seq::empty()), css)
    } else {
        match sf_load_class(sf, classes[0]) {
            Err(_) => (Err(RenderErrorV::CssClassNotFound { class: classes[0] }), css),
            Ok(None) => (Err(RenderErrorV::CssClassNotFound { class: classes[0] }), css),
            Ok(Some(cd)) => {
                let css1 = crate::dict::entries_insert(css, "--"@ + classes[0], cd.css);
                let t = spec_resolve_classes(sf, classes.drop_first(), css1);
                match t.0 {
                    Ok(names) => (Ok(seq![cd.name] + names), t.1),
                    Err(e) => (Err(e), t.1),
                }
            },
        }
    }
}

/// What rendering one widget for one element yields: the HTML, or the error,
/// and the CSS entries after the step. Class resolution happens first; the
/// widget's own CSS and the element's style are written only on success.
pub open spec fn spec_render_widget(
    sf: Seq<(Seq<char>, BackendV)>,
    w: WidgetV,
    el: ElemV,
    ctx2: JsonV,
    path: Seq<char>,
    css: Seq<(Seq<char>, Seq<char>)>,
) -> (Result<Seq<char>, RenderErrorV>, Seq<(Seq<char>, Seq<char>)>) {
    let t = if el.classes.len() == 0 {
        (Ok(Seq::empty()), css)
    } else {
        spec_resolve_classes(sf, el.classes, css)
    };
    match t.0 {
        Err(e) => (Err(e), t.1),
        Ok(names) => {
            let ctx3 = if el.classes.len() == 0 {
                ctx2
            } else {
                crate::json::spec_obj_append_absent(ctx2, "classes"@, strs_to_jarr(names))
            };
            let outer = spec_wrap_ctx(spec_data_obj(el.data, el.id), ctx3);
            match spec_pre_template(el.data, outer) {
                Err(m) => (Err(RenderErrorV::TemplateError { message: m }), t.1),
                Ok(td) => {
                    let fctx = spec_wrap_ctx(spec_data_obj(td, el.id), ctx3);
                    match widget_render(w.html, fctx) {
                        Err(m) => (
                            Err(
                                RenderErrorV::TemplateError {
                                    message: "Error rendering page="@ + path + ", widget="@
                                        + w.name + ": "@ + m,
                                },
                            ),
                            t.1,
                        ),
                        Ok(html) => {
                            let css2 = crate::dict::entries_insert(t.1, "--"@ + w.name, w.css);
                            let css3 = if el.id.len() > 0 && el.style.len() > 0 {
                                crate::dict::entries_insert(
                                    css2,
                                    "#"@ + el.id,
                                    spec_style_css(el.style),
                                )
                            } else {
                                css2
                            };
                            (Ok(html), css3)
                        },
                    }
                },
            }
        },
    }
}

/// Whether an element resolves to a context-injecting widget that fetches a
/// URL; such a subtree depends on the cache and the network.
pub open spec fn elem_is_ctx_url(sf: Seq<(Seq<char>, BackendV)>, el: ElemV) -> bool {
    match sf_load_widget(sf, el.widget) {
        Ok(Some(w)) => (w.name == "static_context"@ || w.name == "url_context"@)
            && crate::codestore::nested_kind(el.widget) == "url_context"@,
        _ => false,
    }
}

/// Whether no element of the tree fetches a URL: rendering such a tree is a
/// pure function of its inputs.
pub open spec fn elem_no_url(sf: Seq<(Seq<char>, BackendV)>, el: ElemV) -> bool
    decreases el,
{
    &&& !elem_is_ctx_url(sf, el)
    &&& forall|i: int| 0 <= i < el.children.len() ==> elem_no_url(sf, #[trigger] el.children[i])
}

/// What rendering one element yields: its HTML fragment, the CSS entries and
/// the collected errors after the step — or the error that aborts the page.
/// In debug mode a failed context derivation or widget render is replaced by
/// an error box and recorded; a missing widget or class stays fatal.
pub open spec fn spec_render_element(
    sf: Seq<(Seq<char>, BackendV)>,
    el: ElemV,
    ctx: JsonV,
    debug: bool,
    path: Seq<char>,
    css: Seq<(Seq<char>, Seq<char>)>,
    errs: Seq<RenderErrorV>,
) -> Result<(Seq<char>, Seq<(Seq<char>, Seq<char>)>, Seq<RenderErrorV>), RenderErrorV>
    decreases el,
{
    match sf_load_widget(sf, el.widget) {
        Err(_) => Err(RenderErrorV::WidgetNotFound { widget: el.widget }),
        Ok(None) => Err(RenderErrorV::WidgetNotFound { widget: el.widget }),
        Ok(Some(w)) => {
            match spec_derive_ctx(w, el, ctx) {
                Err(e) => if debug {
                    Ok((error_pre(e), css, errs.push(e)))
                } else {
                    Err(e)
                },
                Ok(ctx2) => spec_after_children(
                    sf,
                    w,
                    el,
                    ctx2,
                    debug,
                    path,
                    spec_render_children(sf, el.children, ctx2, debug, path, css, errs),
                ),
            }
        },
    }
}

/// The context an element's subtree renders under: derived by the
/// context-injecting widgets, unchanged otherwise. A URL-fetching element's
/// context depends on the cache and network, so nothing is said of it here.
pub open spec fn spec_derive_ctx(w: WidgetV, el: ElemV, ctx: JsonV) -> Result<
    JsonV,
    RenderErrorV,
> {
    if w.name == "static_context"@ || w.name == "url_context"@ {
        if crate::codestore::nested_kind(el.widget) == "static_context"@ {
            crate::codestore::spec_static_context(el.data, ctx)
        } else if crate::codestore::nested_kind(el.widget) == "url_context"@ {
            arbitrary()
        } else {
            Err(
                RenderErrorV::DataError {
                    message: "Widget not found: "@ + crate::codestore::nested_kind(el.widget),
                },
            )
        }
    } else {
        Ok(ctx)
    }
}

/// What becomes of an element once its children are rendered: the widget is
/// rendered around them, with debug mode catching template and data failures.
pub open spec fn spec_after_children(
    sf: Seq<(Seq<char>, BackendV)>,
    w: WidgetV,
    el: ElemV,
    ctx2: JsonV,
    debug: bool,
    path: Seq<char>,
    t: Result<(Seq<Seq<char>>, Seq<(Seq<char>, Seq<char>)>, Seq<RenderErrorV>), RenderErrorV>,
) -> Result<(Seq<char>, Seq<(Seq<char>, Seq<char>)>, Seq<RenderErrorV>), RenderErrorV> {
    match t {
        Err(e) => Err(e),
        Ok((chs, css1, errs1)) => {
            let rctx = crate::json::spec_obj_append_absent(ctx2, "children"@, strs_to_jarr(chs));
            let wr = spec_render_widget(sf, w, el, rctx, path, css1);
            match wr.0 {
                Ok(h) => Ok((h, wr.1, errs1)),
                Err(e) => if e is CssClassNotFound {
                    Err(e)
                } else if debug {
                    Ok((error_pre(e), wr.1, errs1.push(e)))
                } else {
                    Err(e)
                },
            }
        },
    }
}

/// What rendering a sequence of sibling elements yields, left to right; the
/// first fatal error aborts.
pub open spec fn spec_render_children(
    sf: Seq<(Seq<char>, BackendV)>,
    kids: Seq<ElemV>,
    ctx: JsonV,
    debug: bool,
    path: Seq<char>,
    css: Seq<(Seq<char>, Seq<char>)>,
    errs: Seq<RenderErrorV>,
) -> Result<(Seq<Seq<char>>, Seq<(Seq<char>, Seq<char>)>, Seq<RenderErrorV>), RenderErrorV>
    decreases kids,
{
    if kids.len() == 0 {
        Ok((Seq::empty(), css, errs))
    } else {
        match spec_render_element(sf, kids[0], ctx, debug, path, css, errs) {
            Err(e) => Err(e),
            Ok((h, css1, errs1)) => match spec_render_children(
                sf,
                kids.drop_first(),
                ctx,
                debug,
                path,
                css1,
                errs1,
            ) {
                Err(e) => Err(e),
                Ok((hs, css2, errs2)) => Ok((seq![h] + hs, css2, errs2)),
            },
        }
    }
}

/// The concatenation of a list of fragments, in order.
pub open spec fn concat_seqs(hs: Seq<Seq<char>>) -> Seq<char>
    decreases hs.len(),
{
    if hs.len() == 0 {
        Seq::empty()
    } else {
        hs[0] + concat_seqs(hs.drop_first())
    }
}

/// Prefixes collected fragments onto the result of rendering the remaining
/// siblings; used to state the sibling loop.
pub open spec fn prepend_htmls(
    hs: Seq<Seq<char>>,
    t: Result<(Seq<Seq<char>>, Seq<(Seq<char>, Seq<char>)>, Seq<RenderErrorV>), RenderErrorV>,
) -> Result<(Seq<Seq<char>>, Seq<(Seq<char>, Seq<char>)>, Seq<RenderErrorV>), RenderErrorV> {
    match t {
        Ok((hs2, c, e)) => Ok((hs + hs2, c, e)),
        Err(e) => Err(e),
    }
}

/// One rendering pass over a page: it walks the tree, renders children
/// before their parent, and accumulates CSS and errors in `rendered_page`.
pub struct RenderedingPageData<'a> {
    pub page: &'a Page,
    pub store: &'a StoreFactory,
    pub rendered_page: RenderedPage,
    pub debug: bool,
}

impl<'a> RenderedingPageData<'a> {
    /// Starts a pass in strict mode, with the page's path and title already
    /// carried over.
    pub fn new(page: &'a Page, store: &'a StoreFactory) -> (r: RenderedingPageData<'a>)
        ensures
            r.page == page,
            r.store == store,
            !r.debug,
            r.rendered_page.path@ == page@.path,
            r.rendered_page.title@ == page@.title,
            r.rendered_page.store@.len() == 0,
            r.rendered_page.body@.len() == 0,
            r.rendered_page.headers@.len() == 0,
            r.rendered_page.response_code == 200,
            r.rendered_page.head@.meta is None,
            r.rendered_page.head@.link is None,
            r.rendered_page.css_variables@ =~= Seq::<(Seq<char>, Seq<char>)>::empty(),
            r.rendered_page.css_variables.wf(),
            r.rendered_page.errors@.len() == 0,
    {
        let mut rendered_page = RenderedPage::new();
        rendered_page.path = crate::strutil::string_clone(&page.path);
        rendered_page.title = crate::strutil::string_clone(&page.title);
        RenderedingPageData { page, store, rendered_page, debug: false }
    }

    /// Chooses between strict and debug failure handling.
    pub fn with_debug(self, debug: bool) -> (r: RenderedingPageData<'a>)
        ensures
            r.page == self.page,
            r.store == self.store,
            r.debug == debug,
            r.rendered_page == self.rendered_page,
    {
        RenderedingPageData { debug, ..self }
    }

    /// Renders one element: resolves its widget, derives the child context
    /// for the context-injecting widgets, renders the children left to
    /// right, and renders the widget's template around them.
    pub fn render_element(
        &mut self,
        element: &Element,
        ctx: &Json,
        cache: &mut crate::cache::CacheHandle,
    ) -> (r: Result<String, RenderError>)
        ensures
            final(self).page == old(self).page,
            final(self).store == old(self).store,
            final(self).debug == old(self).debug,
            final(self).rendered_page.path == old(self).rendered_page.path,
            final(self).rendered_page.store == old(self).rendered_page.store,
            final(self).rendered_page.title == old(self).rendered_page.title,
            final(self).rendered_page.body == old(self).rendered_page.body,
            final(self).rendered_page.head == old(self).rendered_page.head,
            final(self).rendered_page.headers == old(self).rendered_page.headers,
            final(self).rendered_page.response_code == old(self).rendered_page.response_code,
            old(self).rendered_page.css_variables.wf() ==> final(self).rendered_page.css_variables.wf(),
            old(cache).wf() ==> final(cache).wf(),
            (*old(cache)) is Mem ==> (*final(cache)) is Mem,
            errs_v(old(self).rendered_page.errors@).is_prefix_of(
                errs_v(final(self).rendered_page.errors@),
            ),
            old(self).debug ==> (r matches Err(e) ==> e@ is WidgetNotFound || e@
                is CssClassNotFound),
            elem_no_url(old(self).store.view_v(), element@) ==> *final(cache) == *old(cache)
                && ({
                let res = spec_render_element(
                    old(self).store.view_v(),
                    element@,
                    ctx@,
                    old(self).debug,
                    old(self).rendered_page.path@,
                    old(self).rendered_page.css_variables@,
                    errs_v(old(self).rendered_page.errors@),
                );
                match r {
                    Ok(h) => res == Ok::<_, RenderErrorV>(
                        (
                            h@,
                            final(self).rendered_page.css_variables@,
                            errs_v(final(self).rendered_page.errors@),
                        ),
                    ),
                    Err(e) => res == Err::<
                        (Seq<char>, Seq<(Seq<char>, Seq<char>)>, Seq<RenderErrorV>),
                        RenderErrorV,
                    >(e@),
                }
            }),
        decreases element,
    {
        let ghost sfv = self.store.view_v();
        proof {
            lemma_prefix_refl(errs_v(self.rendered_page.errors@));
        }
        let widget: Widget = match self.store.load_widget_definition(element.widget.as_str()) {
            Err(_) => {
                return Err(
                    RenderError::WidgetNotFound {
                        widget: crate::strutil::string_clone(&element.widget),
                    },
                );
            },
            Ok(None) => {
                return Err(
                    RenderError::WidgetNotFound {
                        widget: crate::strutil::string_clone(&element.widget),
                    },
                );
            },
            Ok(Some(w)) => w,
        };
        let is_ctx_widget = crate::strutil::str_eq(widget.name.as_str(), "static_context")
            || crate::strutil::str_eq(widget.name.as_str(), "url_context");
        let ctx2: Json = if is_ctx_widget {
            match crate::codestore::CodeStore::get_nested_widget_context(element, ctx, cache) {
                Ok(c) => c,
                Err(e) => {
                    if self.debug {
                        let frag = error_fragment(&e);
                        self.rendered_page.errors.push(e);
                        proof {
                            assert(errs_v(self.rendered_page.errors@) =~= errs_v(
                                old(self).rendered_page.errors@,
                            ).push(self.rendered_page.errors@.last()@));
                            lemma_prefix_push(
                                errs_v(old(self).rendered_page.errors@),
                                errs_v(old(self).rendered_page.errors@),
                                self.rendered_page.errors@.last()@,
                            );
                        }
                        return Ok(frag);
                    } else {
                        return Err(e);
                    }
                },
            }
        } else {
            ctx.duplicate()
        };
        let n = element.children.len();
        let mut children_html: Vec<String> = Vec::new();
        let mut i: usize = 0;
        let ghost css0 = self.rendered_page.css_variables@;
        let ghost errs0 = errs_v(self.rendered_page.errors@);
        let ghost path0 = self.rendered_page.path@;
        let ghost kids = element@.children;
        proof {
            assert(kids.skip(0) =~= kids);
        }
        while i < n
            invariant
                n == element.children@.len(),
                kids == element@.children,
                kids.len() == n,
                i <= n,
                children_html@.len() == i,
                self.page == old(self).page,
                self.store == old(self).store,
                self.debug == old(self).debug,
                sfv == self.store.view_v(),
                self.rendered_page.path == old(self).rendered_page.path,
                self.rendered_page.store == old(self).rendered_page.store,
                self.rendered_page.title == old(self).rendered_page.title,
                self.rendered_page.body == old(self).rendered_page.body,
                self.rendered_page.head == old(self).rendered_page.head,
                self.rendered_page.headers == old(self).rendered_page.headers,
                self.rendered_page.response_code == old(self).rendered_page.response_code,
                old(self).rendered_page.css_variables.wf()
                    ==> self.rendered_page.css_variables.wf(),
                old(cache).wf() ==> cache.wf(),
                (*old(cache)) is Mem ==> (*cache) is Mem,
                css0 == old(self).rendered_page.css_variables@,
                errs0 == errs_v(old(self).rendered_page.errors@),
                errs0.is_prefix_of(errs_v(self.rendered_page.errors@)),
                path0 == old(self).rendered_page.path@,
                elem_no_url(sfv, element@) ==> *cache == *old(cache) && spec_render_element(
                    sfv,
                    element@,
                    ctx@,
                    self.debug,
                    path0,
                    css0,
                    errs0,
                ) == spec_after_children(
                    sfv,
                    widget@,
                    element@,
                    ctx2@,
                    self.debug,
                    path0,
                    spec_render_children(sfv, kids, ctx2@, self.debug, path0, css0, errs0),
                ) && spec_render_children(sfv, kids, ctx2@, self.debug, path0, css0, errs0)
                    == prepend_htmls(
                    strs_of(children_html@),
                    spec_render_children(
                        sfv,
                        kids.skip(i as int),
                        ctx2@,
                        self.debug,
                        path0,
                        self.rendered_page.css_variables@,
                        errs_v(self.rendered_page.errors@),
                    ),
                ),
            decreases n - i,
        {
            proof {
                assert(kids.skip(i as int)[0] == kids[i as int]);
                assert(kids.skip(i as int).drop_first() =~= kids.skip(i + 1));
                assert(decreases_to!(element => element.children));
                assert(decreases_to!(element.children => element.children@));
                assert(decreases_to!(element.children@ => element.children@[i as int]));
                if elem_no_url(sfv, element@) {
                    assert(kids[i as int] == crate::pagetypes::elem_view(
                        element.children@[i as int],
                    ));
                    assert(elem_no_url(sfv, kids[i as int]));
                }
            }
            let child = &element.children[i];
            let ghost errs_pre_child = errs_v(self.rendered_page.errors@);
            let h = match self.render_element(child, &ctx2, cache) {
                Ok(h) => h,
                Err(e) => {
                    proof {
                        lemma_prefix_trans(
                            errs0,
                            errs_pre_child,
                            errs_v(self.rendered_page.errors@),
                        );
                    }
                    return Err(e);
                },
            };
            proof {
                lemma_prefix_trans(errs0, errs_pre_child, errs_v(self.rendered_page.errors@));
            }
            let ghost before = children_html@;
            children_html.push(h);
            proof {
                if elem_no_url(sfv, element@) {
                    assert(strs_of(children_html@) =~= strs_of(before).push(
                        children_html@.last()@,
                    ));
                    lemma_prepend_assoc(
                        strs_of(before),
                        children_html@.last()@,
                        spec_render_children(
                            sfv,
                            kids.skip(i + 1),
                            ctx2@,
                            self.debug,
                            self.rendered_page.path@,
                            self.rendered_page.css_variables@,
                            errs_v(self.rendered_page.errors@),
                        ),
                    );
                }
            }
            i = i + 1;
        }
        proof {
            assert(kids.skip(n as int).len() == 0);
        }
        let rctx = crate::json::obj_append_absent(
            &ctx2,
            "children",
            strings_to_json(&children_html),
        );
        match self.render_widget(&widget, element, &rctx) {
            Ok(h) => Ok(h),
            Err(e) => {
                match e {
                    RenderError::CssClassNotFound { .. } => Err(e),
                    _ => {
                        if self.debug {
                            let ghost errs_before = errs_v(self.rendered_page.errors@);
                            let frag = error_fragment(&e);
                            self.rendered_page.errors.push(e);
                            proof {
                                assert(errs_v(self.rendered_page.errors@) =~= errs_before.push(
                                    self.rendered_page.errors@.last()@,
                                ));
                                lemma_prefix_push(
                                    errs_v(old(self).rendered_page.errors@),
                                    errs_before,
                                    self.rendered_page.errors@.last()@,
                                );
                            }
                            Ok(frag)
                        } else {
                            Err(e)
                        }
                    },
                }
            },
        }
    }

    /// Renders one widget for one element: resolves its classes, offers them
    /// and the element's data to the template, renders it, and writes the
    /// widget's CSS and the element's style into the aggregate.
    pub fn render_widget(&mut self, widget: &Widget, element: &Element, ctx2: &Json) -> (r: Result<
        String,
        RenderError,
    >)
        ensures
            final(self).page == old(self).page,
            final(self).store == old(self).store,
            final(self).debug == old(self).debug,
            final(self).rendered_page.path == old(self).rendered_page.path,
            final(self).rendered_page.store == old(self).rendered_page.store,
            final(self).rendered_page.title == old(self).rendered_page.title,
            final(self).rendered_page.body == old(self).rendered_page.body,
            final(self).rendered_page.head == old(self).rendered_page.head,
            final(self).rendered_page.headers == old(self).rendered_page.headers,
            final(self).rendered_page.response_code == old(self).rendered_page.response_code,
            final(self).rendered_page.errors == old(self).rendered_page.errors,
            old(self).rendered_page.css_variables.wf() ==> final(self).rendered_page.css_variables.wf(),
            ({
                let t = spec_render_widget(
                    old(self).store.view_v(),
                    widget@,
                    element@,
                    ctx2@,
                    old(self).rendered_page.path@,
                    old(self).rendered_page.css_variables@,
                );
                &&& final(self).rendered_page.css_variables@ == t.1
                &&& match r {
                    Ok(h) => t.0 == Ok::<Seq<char>, RenderErrorV>(h@),
                    Err(e) => t.0 == Err::<Seq<char>, RenderErrorV>(e@),
                }
            }),
    {
        let ghost sfv = self.store.view_v();
        let ghost css0 = self.rendered_page.css_variables@;
        let mut class_names: Vec<String> = Vec::new();
        let has_classes = element.classes.len() > 0;
        if has_classes {
            let m = element.classes.len();
            let ghost classes_v = element@.classes;
            let mut j: usize = 0;
            proof {
                assert(classes_v.skip(0) =~= classes_v);
                assert(spec_resolve_classes(sfv, classes_v, css0) == prepend_class_names(
                    strs_of(class_names@),
                    spec_resolve_classes(sfv, classes_v.skip(0), css0),
                ));
            }
            while j < m
                invariant
                    m == element.classes@.len(),
                    classes_v == element@.classes,
                    classes_v.len() == m,
                    j <= m,
                    class_names@.len() == j,
                    self.page == old(self).page,
                    self.store == old(self).store,
                    self.debug == old(self).debug,
                    sfv == self.store.view_v(),
                    css0 == old(self).rendered_page.css_variables@,
                    self.rendered_page.path == old(self).rendered_page.path,
                    self.rendered_page.store == old(self).rendered_page.store,
                    self.rendered_page.title == old(self).rendered_page.title,
                    self.rendered_page.body == old(self).rendered_page.body,
                    self.rendered_page.head == old(self).rendered_page.head,
                    self.rendered_page.headers == old(self).rendered_page.headers,
                    self.rendered_page.response_code == old(self).rendered_page.response_code,
                    self.rendered_page.errors == old(self).rendered_page.errors,
                    old(self).rendered_page.css_variables.wf()
                        ==> self.rendered_page.css_variables.wf(),
                    spec_resolve_classes(sfv, classes_v, css0) == prepend_class_names(
                        strs_of(class_names@),
                        spec_resolve_classes(
                            sfv,
                            classes_v.skip(j as int),
                            self.rendered_page.css_variables@,
                        ),
                    ),
                decreases m - j,
            {
                proof {
                    assert(classes_v.skip(j as int)[0] == classes_v[j as int]);
                    assert(classes_v[j as int] == element.classes@[j as int]@);
                    assert(classes_v.skip(j as int).drop_first() =~= classes_v.skip(j + 1));
                }
                let class = &element.classes[j];
                match self.store.load_css_class_definition(class.as_str()) {
                    Err(_) => {
                        return Err(
                            RenderError::CssClassNotFound {
                                class: crate::strutil::string_clone(class),
                            },
                        );
                    },
                    Ok(None) => {
                        return Err(
                            RenderError::CssClassNotFound {
                                class: crate::strutil::string_clone(class),
                            },
                        );
                    },
                    Ok(Some(cd)) => {
                        let key = String::from_str("--").concat(class.as_str());
                        let crate::pagetypes::CssClass { name, css, .. } = cd;
                        self.rendered_page.css_variables.insert(key, css);
                        let ghost before = class_names@;
                        class_names.push(name);
                        proof {
                            assert(strs_of(class_names@) =~= strs_of(before).push(
                                class_names@.last()@,
                            ));
                            lemma_prepend_class_assoc(
                                strs_of(before),
                                class_names@.last()@,
                                spec_resolve_classes(
                                    sfv,
                                    classes_v.skip(j + 1),
                                    self.rendered_page.css_variables@,
                                ),
                            );
                        }
                    },
                }
                j = j + 1;
            }
            proof {
                assert(classes_v.skip(m as int).len() == 0);
                assert(spec_resolve_classes(sfv, classes_v.skip(m as int),
                    self.rendered_page.css_variables@) == (
                    Ok::<Seq<Seq<char>>, RenderErrorV>(Seq::empty()),
                    self.rendered_page.css_variables@,
                ));
                assert(strs_of(class_names@) + Seq::<Seq<char>>::empty() =~= strs_of(
                    class_names@,
                ));
            }
        }
        let ctx3: Json = if !has_classes {
            ctx2.duplicate()
        } else {
            crate::json::obj_append_absent(ctx2, "classes", strings_to_json(&class_names))
        };
        let d0 = data_obj(&element.data, element.id.as_str());
        let outer = wrap_ctx(d0, ctx3.duplicate());
        let td = match pre_template_data(&element.data, &outer) {
            Err(m) => {
                return Err(RenderError::TemplateError { message: m });
            },
            Ok(d) => d,
        };
        let fctx = wrap_ctx(data_obj(&td, element.id.as_str()), ctx3);
        let html = match render_widget_template(widget.html.as_str(), &fctx) {
            Err(m) => {
                let message = String::from_str("Error rendering page=").concat(
                    self.rendered_page.path.as_str(),
                ).concat(", widget=").concat(widget.name.as_str()).concat(": ").concat(m.as_str());
                return Err(RenderError::TemplateError { message });
            },
            Ok(h) => h,
        };
        let wkey = String::from_str("--").concat(widget.name.as_str());
        self.rendered_page.css_variables.insert(
            wkey,
            crate::strutil::string_clone(&widget.css),
        );
        if element.id.unicode_len() > 0 && !element.style.is_empty() {
            let idkey = String::from_str("#").concat(element.id.as_str());
            let css = style_css(&element.style);
            self.rendered_page.css_variables.insert(idkey, css);
        }
        Ok(html)
    }

    /// Renders the page's top-level elements left to right, concatenates
    /// their fragments into the body, and copies the page head onto the
    /// result.
    pub fn render(&mut self, ctx: &Json, cache: &mut crate::cache::CacheHandle) -> (r: Result<
        (),
        RenderError,
    >)
        ensures
            final(self).page == old(self).page,
            final(self).store == old(self).store,
            final(self).debug == old(self).debug,
            final(self).rendered_page.path == old(self).rendered_page.path,
            final(self).rendered_page.store == old(self).rendered_page.store,
            final(self).rendered_page.title == old(self).rendered_page.title,
            final(self).rendered_page.headers == old(self).rendered_page.headers,
            final(self).rendered_page.response_code == old(self).rendered_page.response_code,
            old(self).rendered_page.css_variables.wf() ==> final(self).rendered_page.css_variables.wf(),
            old(cache).wf() ==> final(cache).wf(),
            (*old(cache)) is Mem ==> (*final(cache)) is Mem,
            errs_v(old(self).rendered_page.errors@).is_prefix_of(
                errs_v(final(self).rendered_page.errors@),
            ),
            old(self).debug ==> (r matches Err(e) ==> e@ is WidgetNotFound || e@
                is CssClassNotFound),
            r is Ok ==> final(self).rendered_page.head@ == (match old(self).page@.head {
                Some(h) => h,
                None => PageHeadV { meta: None, link: None },
            }),
            elems_no_url(old(self).store.view_v(), old(self).page@.children) ==> *final(cache)
                == *old(cache) && ({
                let t = spec_render_children(
                    old(self).store.view_v(),
                    old(self).page@.children,
                    ctx@,
                    old(self).debug,
                    old(self).rendered_page.path@,
                    old(self).rendered_page.css_variables@,
                    errs_v(old(self).rendered_page.errors@),
                );
                match r {
                    Ok(_) => match t {
                        Ok((chs, css1, errs1)) => {
                            &&& final(self).rendered_page.body@ == old(
                                self,
                            ).rendered_page.body@ + concat_seqs(chs)
                            &&& final(self).rendered_page.css_variables@ == css1
                            &&& errs_v(final(self).rendered_page.errors@) == errs1
                        },
                        Err(_) => false,
                    },
                    Err(e) => t == Err::<
                        (Seq<Seq<char>>, Seq<(Seq<char>, Seq<char>)>, Seq<RenderErrorV>),
                        RenderErrorV,
                    >(e@),
                }
            }),
    {
        let ghost sfv = self.store.view_v();
        let ghost css0 = self.rendered_page.css_variables@;
        let ghost errs0 = errs_v(self.rendered_page.errors@);
        let ghost path0 = self.rendered_page.path@;
        let page: &Page = self.page;
        let ghost kids = page@.children;
        let n = page.children.len();
        let mut body = String::new();
        let ghost mut collected: Seq<Seq<char>> = Seq::empty();
        let mut i: usize = 0;
        proof {
            assert(kids.skip(0) =~= kids);
            assert(body@ =~= concat_seqs(Seq::empty()));
            lemma_prefix_refl(errs0);
        }
        while i < n
            invariant
                n == page.children@.len(),
                kids == page@.children,
                kids.len() == n,
                i <= n,
                page == self.page,
                self.page == old(self).page,
                self.store == old(self).store,
                self.debug == old(self).debug,
                sfv == self.store.view_v(),
                css0 == old(self).rendered_page.css_variables@,
                errs0 == errs_v(old(self).rendered_page.errors@),
                errs0.is_prefix_of(errs_v(self.rendered_page.errors@)),
                path0 == old(self).rendered_page.path@,
                self.rendered_page.path == old(self).rendered_page.path,
                self.rendered_page.store == old(self).rendered_page.store,
                self.rendered_page.title == old(self).rendered_page.title,
                self.rendered_page.body == old(self).rendered_page.body,
                self.rendered_page.head == old(self).rendered_page.head,
                self.rendered_page.headers == old(self).rendered_page.headers,
                self.rendered_page.response_code == old(self).rendered_page.response_code,
                old(self).rendered_page.css_variables.wf()
                    ==> self.rendered_page.css_variables.wf(),
                old(cache).wf() ==> cache.wf(),
                (*old(cache)) is Mem ==> (*cache) is Mem,
                body@ == concat_seqs(collected),
                elems_no_url(sfv, kids) ==> *cache == *old(cache) && spec_render_children(
                    sfv,
                    kids,
                    ctx@,
                    self.debug,
                    path0,
                    css0,
                    errs0,
                ) == prepend_htmls(
                    collected,
                    spec_render_children(
                        sfv,
                        kids.skip(i as int),
                        ctx@,
                        self.debug,
                        path0,
                        self.rendered_page.css_variables@,
                        errs_v(self.rendered_page.errors@),
                    ),
                ),
            decreases n - i,
        {
            proof {
                assert(kids.skip(i as int)[0] == kids[i as int]);
                assert(kids.skip(i as int).drop_first() =~= kids.skip(i + 1));
                if elems_no_url(sfv, kids) {
                    assert(kids[i as int] == crate::pagetypes::elem_view(
                        page.children@[i as int],
                    ));
                    assert(elem_no_url(sfv, kids[i as int]));
                }
            }
            let child = &page.children[i];
            let ghost errs_pre_child = errs_v(self.rendered_page.errors@);
            let h = match self.render_element(child, ctx, cache) {
                Ok(h) => h,
                Err(e) => {
                    proof {
                        lemma_prefix_trans(
                            errs0,
                            errs_pre_child,
                            errs_v(self.rendered_page.errors@),
                        );
                    }
                    return Err(e);
                },
            };
            proof {
                lemma_prefix_trans(errs0, errs_pre_child, errs_v(self.rendered_page.errors@));
            }
            let ghost hs_before = collected;
            body.append(h.as_str());
            proof {
                collected = hs_before.push(h@);
                lemma_concat_snoc(hs_before, h@);
                if elems_no_url(sfv, kids) {
                    lemma_prepend_assoc(
                        hs_before,
                        h@,
                        spec_render_children(
                            sfv,
                            kids.skip(i + 1),
                            ctx@,
                            self.debug,
                            path0,
                            self.rendered_page.css_variables@,
                            errs_v(self.rendered_page.errors@),
                        ),
                    );
                }
            }
            i = i + 1;
        }
        proof {
            assert(kids.skip(n as int).len() == 0);
        }
        let ghost body_before = self.rendered_page.body@;
        let prev_body = crate::strutil::string_clone(&self.rendered_page.body);
        self.rendered_page.body = prev_body.concat(body.as_str());
        self.rendered_page.head = match &page.head {
            Some(h) => h.duplicate(),
            None => PageHead::new(),
        };
        Ok(())
    }
}

/// Whether no element of a sequence of trees fetches a URL.
pub open spec fn elems_no_url(sf: Seq<(Seq<char>, BackendV)>, kids: Seq<ElemV>) -> bool {
    forall|i: int| 0 <= i < kids.len() ==> elem_no_url(sf, #[trigger] kids[i])
}

/// Concatenation distributes over appending one fragment.
proof fn lemma_concat_snoc(hs: Seq<Seq<char>>, h: Seq<char>)
    ensures
        concat_seqs(hs.push(h)) == concat_seqs(hs) + h,
    decreases hs.len(),
{
    if hs.len() == 0 {
        assert(hs.push(h).drop_first() =~= Seq::<Seq<char>>::empty());
        assert(hs.push(h)[0] == h);
        assert(concat_seqs(hs.push(h)) == h + concat_seqs(Seq::<Seq<char>>::empty()));
        assert(h + Seq::<char>::empty() =~= h);
        assert(concat_seqs(hs) + h =~= h);
    } else {
        assert(hs.push(h).drop_first() =~= hs.drop_first().push(h));
        assert(hs.push(h)[0] == hs[0]);
        lemma_concat_snoc(hs.drop_first(), h);
        assert(hs[0] + (concat_seqs(hs.drop_first()) + h) =~= (hs[0] + concat_seqs(
            hs.drop_first(),
        )) + h);
    }
}

/// The renderer: a store federation to resolve widgets and classes through,
/// with the fixed template environment inside the rendering step.
pub struct PageRenderer {
    pub store: StoreFactory,
}

impl PageRenderer {
    pub fn new() -> (r: PageRenderer)
        ensures
            r.store.view_v() =~= Seq::<(Seq<char>, BackendV)>::empty(),
    {
        PageRenderer { store: StoreFactory::new() }
    }

    /// Renders a page under the given context: the body is the concatenation
    /// of the top-level fragments, the CSS entries and collected errors are
    /// what the pass wrote, and the page head is carried over.
    pub fn render_page(
        &self,
        page: &Page,
        ctx: &Json,
        debug: bool,
        cache: &mut crate::cache::CacheHandle,
    ) -> (r: Result<RenderedPage, RenderError>)
        ensures
            old(cache).wf() ==> final(cache).wf(),
            (*old(cache)) is Mem ==> (*final(cache)) is Mem,
            debug ==> (r matches Err(e) ==> e@ is WidgetNotFound || e@ is CssClassNotFound),
            r matches Ok(rp) ==> {
                &&& rp.path@ == page@.path
                &&& rp.title@ == page@.title
                &&& rp.store@.len() == 0
                &&& rp.headers@.len() == 0
                &&& rp.response_code == 200
                &&& rp.css_variables.wf()
                &&& rp.head@ == (match page@.head {
                    Some(h) => h,
                    None => PageHeadV { meta: None, link: None },
                })
            },
            elems_no_url(self.store.view_v(), page@.children) ==> *final(cache) == *old(cache)
                && ({
                let t = spec_render_children(
                    self.store.view_v(),
                    page@.children,
                    ctx@,
                    debug,
                    page@.path,
                    Seq::empty(),
                    Seq::empty(),
                );
                match r {
                    Ok(rp) => match t {
                        Ok((chs, css1, errs1)) => {
                            &&& rp.body@ == concat_seqs(chs)
                            &&& rp.css_variables@ == css1
                            &&& errs_v(rp.errors@) == errs1
                        },
                        Err(_) => false,
                    },
                    Err(e) => t == Err::<
                        (Seq<Seq<char>>, Seq<(Seq<char>, Seq<char>)>, Seq<RenderErrorV>),
                        RenderErrorV,
                    >(e@),
                }
            }),
    {
        let mut pass = RenderedingPageData::new(page, &self.store).with_debug(debug);
        proof {
            assert(errs_v(pass.rendered_page.errors@) =~= Seq::<RenderErrorV>::empty());
        }
        match pass.render(ctx, cache) {
            Ok(_) => {
                proof {
                    if elems_no_url(self.store.view_v(), page@.children) {
                        assert(Seq::<char>::empty() + pass.rendered_page.body@
                            =~= pass.rendered_page.body@);
                    }
                }
                Ok(pass.rendered_page)
            },
            Err(e) => Err(e),
        }
    }
}

/// The render-level form of CSS order stability: two passes — in particular
/// over the same children in two different orders — whose aggregated writes
/// described the same key-to-value map emit identical stylesheets, while each
/// body stays the concatenation of its own pass's fragments in child order.
/// The map hypothesis is the property's own caveat: the children's generated
/// keys must differ, or agree on their values, for the written maps to
/// coincide.
pub proof fn lemma_render_css_order_stable(
    sf: Seq<(Seq<char>, BackendV)>,
    kids1: Seq<ElemV>,
    kids2: Seq<ElemV>,
    ctx: JsonV,
    debug: bool,
    path: Seq<char>,
    r1: (Seq<Seq<char>>, Seq<(Seq<char>, Seq<char>)>, Seq<RenderErrorV>),
    r2: (Seq<Seq<char>>, Seq<(Seq<char>, Seq<char>)>, Seq<RenderErrorV>),
)
    requires
        spec_render_children(sf, kids1, ctx, debug, path, Seq::empty(), Seq::empty()) == Ok::<
            _,
            RenderErrorV,
        >(r1),
        spec_render_children(sf, kids2, ctx, debug, path, Seq::empty(), Seq::empty()) == Ok::<
            _,
            RenderErrorV,
        >(r2),
        entries_unique(r1.1),
        entries_unique(r2.1),
        entries_map(r1.1) == entries_map(r2.1),
    ensures
        css_string_of(r1.1) == css_string_of(r2.1),
{
    lemma_css_stable_under_order(r1.1, r2.1);
}

/// Rendering is deterministic: the body, the CSS entries, the emitted
/// stylesheet and the collected errors of a pass over a tree that fetches no
/// URL are functions of the store contents, the page, the outer context and
/// the mode — two passes over the same inputs agree.
pub proof fn lemma_render_deterministic(
    sf: Seq<(Seq<char>, BackendV)>,
    kids: Seq<ElemV>,
    ctx: JsonV,
    debug: bool,
    path: Seq<char>,
    r1: (Seq<Seq<char>>, Seq<(Seq<char>, Seq<char>)>, Seq<RenderErrorV>),
    r2: (Seq<Seq<char>>, Seq<(Seq<char>, Seq<char>)>, Seq<RenderErrorV>),
)
    requires
        spec_render_children(sf, kids, ctx, debug, path, Seq::empty(), Seq::empty()) == Ok::<
            _,
            RenderErrorV,
        >(r1),
        spec_render_children(sf, kids, ctx, debug, path, Seq::empty(), Seq::empty()) == Ok::<
            _,
            RenderErrorV,
        >(r2),
    ensures
        concat_seqs(r1.0) == concat_seqs(r2.0),
        r1.1 == r2.1,
        css_string_of(r1.1) == css_string_of(r2.1),
        r1.2 == r2.2,
{
}

/// In debug mode the only failures that abort a render are the structural
/// ones: a widget or a CSS class that no store serves. Template and data
/// failures are caught, replaced by an error box, and each appends exactly
/// one entry to the error list, as the rendering specification records.
pub proof fn lemma_debug_failures_structural(
    sf: Seq<(Seq<char>, BackendV)>,
    el: ElemV,
    ctx: JsonV,
    path: Seq<char>,
    css: Seq<(Seq<char>, Seq<char>)>,
    errs: Seq<RenderErrorV>,
)
    ensures
        spec_render_element(sf, el, ctx, true, path, css, errs) matches Err(e) ==> (e
            is WidgetNotFound || e is CssClassNotFound),
    decreases el,
{
    match sf_load_widget(sf, el.widget) {
        Ok(Some(w)) => {
            match spec_derive_ctx(w, el, ctx) {
                Ok(ctx2) => {
                    lemma_debug_failures_structural_children(
                        sf,
                        el.children,
                        ctx2,
                        path,
                        css,
                        errs,
                    );
                },
                Err(_) => {},
            }
        },
        _ => {},
    }
}

/// `more` extends `base` and every appended entry is a caught template or
/// data failure.
pub open spec fn appended_caught(base: Seq<RenderErrorV>, more: Seq<RenderErrorV>) -> bool {
    &&& base.is_prefix_of(more)
    &&& forall|i: int| base.len() <= i < more.len() ==> ((#[trigger] more[i]) is TemplateError
        || more[i] is DataError)
}

proof fn lemma_appended_refl(s: Seq<RenderErrorV>)
    ensures
        appended_caught(s, s),
{
    lemma_prefix_refl(s);
}

proof fn lemma_appended_push(a: Seq<RenderErrorV>, b: Seq<RenderErrorV>, e: RenderErrorV)
    requires
        appended_caught(a, b),
        e is TemplateError || e is DataError,
    ensures
        appended_caught(a, b.push(e)),
{
    lemma_prefix_push(a, b, e);
}

proof fn lemma_appended_trans(a: Seq<RenderErrorV>, b: Seq<RenderErrorV>, c: Seq<RenderErrorV>)
    requires
        appended_caught(a, b),
        appended_caught(b, c),
    ensures
        appended_caught(a, c),
{
    lemma_prefix_trans(a, b, c);
    assert forall|i: int| a.len() <= i < c.len() implies ((#[trigger] c[i]) is TemplateError
        || c[i] is DataError) by {
        if i < b.len() {
            assert(b[i] == c.subrange(0, b.len() as int)[i]);
        }
    }
}

/// Class resolution fails only with a missing class.
proof fn lemma_resolve_classes_errors(
    sf: Seq<(Seq<char>, BackendV)>,
    classes: Seq<Seq<char>>,
    css: Seq<(Seq<char>, Seq<char>)>,
)
    ensures
        match spec_resolve_classes(sf, classes, css).0 {
            Err(e) => e is CssClassNotFound,
            Ok(_) => true,
        },
    decreases classes.len(),
{
    if classes.len() > 0 {
        match sf_load_class(sf, classes[0]) {
            Ok(Some(cd)) => {
                let css1 = crate::dict::entries_insert(css, "--"@ + classes[0], cd.css);
                lemma_resolve_classes_errors(sf, classes.drop_first(), css1);
            },
            _ => {},
        }
    }
}

/// Rendering a widget fails only with a missing class or a template failure.
proof fn lemma_render_widget_errors(
    sf: Seq<(Seq<char>, BackendV)>,
    w: WidgetV,
    el: ElemV,
    ctx2: JsonV,
    path: Seq<char>,
    css: Seq<(Seq<char>, Seq<char>)>,
)
    ensures
        match spec_render_widget(sf, w, el, ctx2, path, css).0 {
            Err(e) => e is CssClassNotFound || e is TemplateError,
            Ok(_) => true,
        },
{
    if el.classes.len() > 0 {
        lemma_resolve_classes_errors(sf, el.classes, css);
    }
}

/// The debug-mode error count law: over a tree that fetches no URL, a pass
/// that succeeds in debug mode appends exactly one entry per caught failure —
/// the error list grows only by the caught template and data failures, so its
/// growth counts them.
pub proof fn lemma_debug_errors_appended(
    sf: Seq<(Seq<char>, BackendV)>,
    el: ElemV,
    ctx: JsonV,
    path: Seq<char>,
    css: Seq<(Seq<char>, Seq<char>)>,
    errs: Seq<RenderErrorV>,
)
    requires
        elem_no_url(sf, el),
    ensures
        match spec_render_element(sf, el, ctx, true, path, css, errs) {
            Ok((h, c, errs2)) => appended_caught(errs, errs2),
            Err(_) => true,
        },
    decreases el,
{
    lemma_appended_refl(errs);
    match sf_load_widget(sf, el.widget) {
        Ok(Some(w)) => {
            match spec_derive_ctx(w, el, ctx) {
                Ok(ctx2) => {
                    lemma_debug_errors_appended_children(sf, el.children, ctx2, path, css, errs);
                    match spec_render_children(sf, el.children, ctx2, true, path, css, errs) {
                        Ok((chs, css1, errs1)) => {
                            let rctx = crate::json::spec_obj_append_absent(
                                ctx2,
                                "children"@,
                                strs_to_jarr(chs),
                            );
                            let wr = spec_render_widget(sf, w, el, rctx, path, css1);
                            lemma_render_widget_errors(sf, w, el, rctx, path, css1);
                            match wr.0 {
                                Err(e) => {
                                    if !(e is CssClassNotFound) {
                                        lemma_appended_push(errs, errs1, e);
                                    }
                                },
                                Ok(_) => {},
                            }
                        },
                        Err(_) => {},
                    }
                },
                Err(e) => {
                    assert(!elem_is_ctx_url(sf, el));
                    lemma_appended_push(errs, errs, e);
                },
            }
        },
        _ => {},
    }
}

/// The sibling form of the error count law.
pub proof fn lemma_debug_errors_appended_children(
    sf: Seq<(Seq<char>, BackendV)>,
    kids: Seq<ElemV>,
    ctx: JsonV,
    path: Seq<char>,
    css: Seq<(Seq<char>, Seq<char>)>,
    errs: Seq<RenderErrorV>,
)
    requires
        forall|i: int| 0 <= i < kids.len() ==> elem_no_url(sf, #[trigger] kids[i]),
    ensures
        match spec_render_children(sf, kids, ctx, true, path, css, errs) {
            Ok((hs, c, errs2)) => appended_caught(errs, errs2),
            Err(_) => true,
        },
    decreases kids,
{
    lemma_appended_refl(errs);
    if kids.len() > 0 {
        lemma_debug_errors_appended(sf, kids[0], ctx, path, css, errs);
        match spec_render_element(sf, kids[0], ctx, true, path, css, errs) {
            Ok((h, css1, errs1)) => {
                assert(forall|i: int|
                    0 <= i < kids.drop_first().len() ==> elem_no_url(
                        sf,
                        #[trigger] kids.drop_first()[i],
                    ));
                lemma_debug_errors_appended_children(
                    sf,
                    kids.drop_first(),
                    ctx,
                    path,
                    css1,
                    errs1,
                );
                match spec_render_children(sf, kids.drop_first(), ctx, true, path, css1, errs1) {
                    Ok((hs, css2, errs2)) => {
                        lemma_appended_trans(errs, errs1, errs2);
                    },
                    Err(_) => {},
                }
            },
            Err(_) => {},
        }
    }
}

/// The sibling form of the debug-mode law.
pub proof fn lemma_debug_failures_structural_children(
    sf: Seq<(Seq<char>, BackendV)>,
    kids: Seq<ElemV>,
    ctx: JsonV,
    path: Seq<char>,
    css: Seq<(Seq<char>, Seq<char>)>,
    errs: Seq<RenderErrorV>,
)
    ensures
        spec_render_children(sf, kids, ctx, true, path, css, errs) matches Err(e) ==> (e
            is WidgetNotFound || e is CssClassNotFound),
    decreases kids,
{
    if kids.len() > 0 {
        lemma_debug_failures_structural(sf, kids[0], ctx, path, css, errs);
        match spec_render_element(sf, kids[0], ctx, true, path, css, errs) {
            Ok((h, css1, errs1)) => {
                lemma_debug_failures_structural_children(
                    sf,
                    kids.drop_first(),
                    ctx,
                    path,
                    css1,
                    errs1,
                );
            },
            Err(_) => {},
        }
    }
}

/// Prefixes collected class names onto the result of resolving the rest.
pub open spec fn prepend_class_names(
    hs: Seq<Seq<char>>,
    t: (Result<Seq<Seq<char>>, RenderErrorV>, Seq<(Seq<char>, Seq<char>)>),
) -> (Result<Seq<Seq<char>>, RenderErrorV>, Seq<(Seq<char>, Seq<char>)>) {
    match t.0 {
        Ok(names) => (Ok(hs + names), t.1),
        Err(e) => (Err(e), t.1),
    }
}

/// Splitting a prepend at one more collected fragment changes nothing.
proof fn lemma_prepend_assoc(
    hs: Seq<Seq<char>>,
    h: Seq<char>,
    t: Result<(Seq<Seq<char>>, Seq<(Seq<char>, Seq<char>)>, Seq<RenderErrorV>), RenderErrorV>,
)
    ensures
        prepend_htmls(hs.push(h), t) == prepend_htmls(hs, prepend_htmls(seq![h], t)),
{
    match t {
        Ok((hs2, c, e)) => {
            assert(hs.push(h) + hs2 =~= hs + (seq![h] + hs2));
        },
        Err(_) => {},
    }
}

/// The class-name form of the same step.
proof fn lemma_prepend_class_assoc(
    hs: Seq<Seq<char>>,
    h: Seq<char>,
    t: (Result<Seq<Seq<char>>, RenderErrorV>, Seq<(Seq<char>, Seq<char>)>),
)
    ensures
        prepend_class_names(hs.push(h), t) == prepend_class_names(
            hs,
            prepend_class_names(seq![h], t),
        ),
{
    match t.0 {
        Ok(names) => {
            assert(hs.push(h) + names =~= hs + (seq![h] + names));
        },
        Err(_) => {},
    }
}

/// The emitted CSS depends only on the key-to-value map of the aggregated
/// entries, never on the order the pass wrote them in: two passes whose
/// writes described the same map emit the same stylesheet.
pub proof fn lemma_css_stable_under_order(
    e1: Seq<(Seq<char>, Seq<char>)>,
    e2: Seq<(Seq<char>, Seq<char>)>,
)
    requires
        entries_unique(e1),
        entries_unique(e2),
        entries_map(e1) == entries_map(e2),
    ensures
        css_string_of(e1) == css_string_of(e2),
{
    lemma_same_map_same_multiset(e1, e2);
    let f = |e: (Seq<char>, Seq<char>)| css_fragment(e);
    lemma_map_multiset(e1, e2, f);
    crate::strutil::lemma_lex_total_ordering();
    css_fragments(e1).lemma_sort_by_ensures(lex_leq());
    css_fragments(e2).lemma_sort_by_ensures(lex_leq());
    vstd::seq_lib::lemma_sorted_unique(
        css_fragments(e1).sort_by(lex_leq()),
        css_fragments(e2).sort_by(lex_leq()),
        lex_leq(),
    );
}

} // verus!
