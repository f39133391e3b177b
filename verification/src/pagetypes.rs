use vstd::prelude::*;

use crate::dict::StrDict;
use crate::strutil::{first_char_is_digit, is_digit};

verus! {

/// One option offered by a widget editor field.
pub struct WidgetEditorOption {
    pub label: String,
    pub value: String,
    pub icon: String,
}

/// One field of a widget's editing form.
pub struct WidgetEditor {
    pub editor_type: String,
    pub label: String,
    pub name: String,
    pub placeholder: String,
    pub options: Vec<WidgetEditorOption>,
}

/// A reusable HTML template with its CSS and editor hints.
pub struct Widget {
    pub name: String,
    pub description: String,
    pub icon: String,
    pub html: String,
    pub css: String,
    pub editor: Vec<WidgetEditor>,
}

#[verifier::ext_equal]
pub struct WidgetEditorOptionV {
    pub label: Seq<char>,
    pub value: Seq<char>,
    pub icon: Seq<char>,
}

#[verifier::ext_equal]
pub struct WidgetEditorV {
    pub editor_type: Seq<char>,
    pub label: Seq<char>,
    pub name: Seq<char>,
    pub placeholder: Seq<char>,
    pub options: Seq<WidgetEditorOptionV>,
}

#[verifier::ext_equal]
pub struct WidgetV {
    pub name: Seq<char>,
    pub description: Seq<char>,
    pub icon: Seq<char>,
    pub html: Seq<char>,
    pub css: Seq<char>,
    pub editor: Seq<WidgetEditorV>,
}

impl View for WidgetEditorOption {
    type V = WidgetEditorOptionV;

    open spec fn view(&self) -> WidgetEditorOptionV {
        WidgetEditorOptionV { label: self.label@, value: self.value@, icon: self.icon@ }
    }
}

impl View for WidgetEditor {
    type V = WidgetEditorV;

    open spec fn view(&self) -> WidgetEditorV {
        WidgetEditorV {
            editor_type: self.editor_type@,
            label: self.label@,
            name: self.name@,
            placeholder: self.placeholder@,
            options: self.options@.map_values(|o: WidgetEditorOption| o@),
        }
    }
}

impl View for Widget {
    type V = WidgetV;

    open spec fn view(&self) -> WidgetV {
        WidgetV {
            name: self.name@,
            description: self.description@,
            icon: self.icon@,
            html: self.html@,
            css: self.css@,
            editor: self.editor@.map_values(|e: WidgetEditor| e@),
        }
    }
}

impl WidgetEditor {
    pub fn new() -> (r: WidgetEditor)
        ensures
            r@.editor_type.len() == 0,
            r@.label.len() == 0,
            r@.name.len() == 0,
            r@.placeholder.len() == 0,
            r@.options.len() == 0,
    {
        let r = WidgetEditor {
            editor_type: String::new(),
            label: String::new(),
            name: String::new(),
            placeholder: String::new(),
            options: Vec::new(),
        };
        proof {
            assert(r@.options =~= Seq::<WidgetEditorOptionV>::empty());
        }
        r
    }

    pub fn with_editor_type(self, editor_type: String) -> (r: WidgetEditor)
        ensures
            r@ == (WidgetEditorV { editor_type: editor_type@, ..self@ }),
    {
        WidgetEditor { editor_type, ..self }
    }

    pub fn with_label(self, label: String) -> (r: WidgetEditor)
        ensures
            r@ == (WidgetEditorV { label: label@, ..self@ }),
    {
        WidgetEditor { label, ..self }
    }

    pub fn with_name(self, name: String) -> (r: WidgetEditor)
        ensures
            r@ == (WidgetEditorV { name: name@, ..self@ }),
    {
        WidgetEditor { name, ..self }
    }

    pub fn with_placeholder(self, placeholder: String) -> (r: WidgetEditor)
        ensures
            r@ == (WidgetEditorV { placeholder: placeholder@, ..self@ }),
    {
        WidgetEditor { placeholder, ..self }
    }
}

/// A list of widgets with its total count.
pub struct WidgetResults {
    pub count: usize,
    pub results: Vec<Widget>,
}

/// A short identifier-and-name pair.
pub struct IdName {
    pub id: String,
    pub name: String,
}

/// A list of store names with its total count.
pub struct StoreListResults {
    pub count: usize,
    pub results: Vec<IdName>,
}

/// One `<meta>` entry of a page head.
pub struct MetaDefinition {
    pub name: String,
    pub content: String,
}

/// One `<link>` entry of a page head.
pub struct LinkDefinition {
    pub href: String,
    pub rel: String,
}

#[verifier::ext_equal]
pub struct MetaDefinitionV {
    pub name: Seq<char>,
    pub content: Seq<char>,
}

#[verifier::ext_equal]
pub struct LinkDefinitionV {
    pub href: Seq<char>,
    pub rel: Seq<char>,
}

impl View for MetaDefinition {
    type V = MetaDefinitionV;

    open spec fn view(&self) -> MetaDefinitionV {
        MetaDefinitionV { name: self.name@, content: self.content@ }
    }
}

impl View for LinkDefinition {
    type V = LinkDefinitionV;

    open spec fn view(&self) -> LinkDefinitionV {
        LinkDefinitionV { href: self.href@, rel: self.rel@ }
    }
}

/// One widget instance in a page, with its data, style, classes and children.
pub struct Element {
    pub id: String,
    pub widget: String,
    pub data: StrDict,
    pub children: Vec<Element>,
    pub style: StrDict,
    pub classes: Vec<String>,
}

#[verifier::ext_equal]
pub struct ElemV {
    pub id: Seq<char>,
    pub widget: Seq<char>,
    pub data: Seq<(Seq<char>, Seq<char>)>,
    pub children: Seq<ElemV>,
    pub style: Seq<(Seq<char>, Seq<char>)>,
    pub classes: Seq<Seq<char>>,
}

/// The abstract value of an element; recursion stops at the leaves.
pub open spec fn elem_view(e: Element) -> ElemV
    decreases e,
{
    ElemV {
        id: e.id@,
        widget: e.widget@,
        data: e.data@,
        children: Seq::new(
            e.children@.len(),
            |i: int|
                if 0 <= i < e.children@.len() {
                    elem_view(e.children@[i])
                } else {
                    arbitrary()
                },
        ),
        style: e.style@,
        classes: e.classes@.map_values(|c: String| c@),
    }
}

/// The abstract values of a sequence of elements.
pub open spec fn elems_view(s: Seq<Element>) -> Seq<ElemV> {
    Seq::new(s.len(), |i: int| if 0 <= i < s.len() { elem_view(s[i]) } else { arbitrary() })
}

impl View for Element {
    type V = ElemV;

    open spec fn view(&self) -> ElemV {
        elem_view(*self)
    }
}

impl Element {
    pub fn new(widget: String, data: StrDict, id: String) -> (r: Element)
        ensures
            r@.id == id@,
            r@.widget == widget@,
            r@.data == data@,
            r@.children.len() == 0,
            r@.style.len() == 0,
            r@.classes.len() == 0,
    {
        let r = Element {
            id,
            widget,
            data,
            children: Vec::new(),
            style: StrDict::new(),
            classes: Vec::new(),
        };
        proof {
            assert(r@.children =~= Seq::<ElemV>::empty());
            assert(r@.classes =~= Seq::<Seq<char>>::empty());
        }
        r
    }

    pub fn with_children(self, children: Vec<Element>) -> (r: Element)
        ensures
            r@.id == self@.id,
            r@.widget == self@.widget,
            r@.data == self@.data,
            r@.style == self@.style,
            r@.classes == self@.classes,
            r@.children =~= elems_view(children@),
    {
        Element { children, ..self }
    }

    /// Extends the element's style with the given declarations;
    /// existing keys are overwritten.
    pub fn with_style(self, style: StrDict) -> (r: Element)
        ensures
            r@.id == self@.id,
            r@.widget == self@.widget,
            r@.data == self@.data,
            r@.children == self@.children,
            r@.classes == self@.classes,
            r@.style == crate::dict::entries_extend(self@.style, style@),
            style.wf() ==> r.style.to_map() == self.style.to_map().union_prefer_right(
                style.to_map(),
            ),
    {
        let Element { id, widget, data, children, style: mut merged, classes } = self;
        merged.extend_from(&style);
        Element { id, widget, data, children, style: merged, classes }
    }

    pub fn with_classes(self, classes: Vec<String>) -> (r: Element)
        ensures
            r@.id == self@.id,
            r@.widget == self@.widget,
            r@.data == self@.data,
            r@.children == self@.children,
            r@.style == self@.style,
            r@.classes == classes@.map_values(|c: String| c@),
    {
        Element { classes, ..self }
    }

    /// Gives every element of the tree a usable id: an empty id is replaced
    /// with a fresh one, prefixed when it would start with a digit. All other
    /// fields are kept.
    pub fn fix(self) -> (r: Element)
        ensures
            elem_fixed(self@, r@),
        decreases self,
    {
        let Element { mut id, widget, data, children, style, classes } = self;
        if id.unicode_len() == 0 {
            id = new_uuid_string();
            if first_char_is_digit(id.as_str()) {
                let prefixed = String::from_str("id_").concat(id.as_str());
                proof {
                    reveal_strlit("id_");
                    assert(prefixed@[0] == 'i');
                    assert(!is_digit('i'));
                }
                id = prefixed;
            }
        }
        let mut rest = children;
        let mut new_children: Vec<Element> = Vec::new();
        let ghost orig: Seq<Element> = rest@;
        let n = rest.len();
        let mut k: usize = 0;
        proof {
            assert(orig.skip(0) =~= orig);
        }
        while rest.len() > 0
            invariant
                n == orig.len(),
                k <= n,
                orig == self.children@,
                rest@ == orig.skip(k as int),
                new_children@.len() == k,
                forall|i: int| 0 <= i < k ==> elem_fixed(
                    elem_view(#[trigger] orig[i]),
                    elem_view(new_children@[i]),
                ),
            decreases rest@.len(),
        {
            let c = rest.remove(0);
            proof {
                assert(orig.skip(k as int)[0] == orig[k as int]);
                assert(c == orig[k as int]);
                assert(decreases_to!(self => self.children));
                assert(decreases_to!(self.children => self.children@));
                assert(decreases_to!(orig => orig[k as int]));
                assert(rest@ =~= orig.skip(k + 1));
            }
            let fixed = c.fix();
            new_children.push(fixed);
            k = k + 1;
        }
        proof {
            assert(orig.skip(k as int).len() == 0);
            assert(k == orig.len());
        }
        let r = Element { id, widget, data, children: new_children, style, classes };
        proof {
            assert(elem_fixed(self@, r@)) by {
                assert(self@.children.len() == orig.len());
                assert(r@.children.len() == orig.len());
                assert forall|i: int| 0 <= i < self@.children.len() implies elem_fixed(
                    #[trigger] self@.children[i],
                    r@.children[i],
                ) by {
                    assert(orig[i] == orig[i]);
                    assert(self@.children[i] == elem_view(orig[i]));
                    assert(r@.children[i] == elem_view(new_children@[i]));
                }
            }
        }
        r
    }
}

/// The result of normalizing `o` into `n`: ids are filled in where empty and
/// everything else is unchanged, recursively.
pub open spec fn elem_fixed(o: ElemV, n: ElemV) -> bool
    decreases o,
{
    &&& n.widget == o.widget
    &&& n.data == o.data
    &&& n.style == o.style
    &&& n.classes == o.classes
    &&& if o.id.len() == 0 {
        n.id.len() > 0 && !is_digit(n.id[0])
    } else {
        n.id == o.id
    }
    &&& n.children.len() == o.children.len()
    &&& forall|i: int| 0 <= i < o.children.len() ==> elem_fixed(
        #[trigger] o.children[i],
        n.children[i],
    )
}

/// A fresh identifier in hyphenated form.
/// Relies on `uuid::Uuid::new_v4` and its `Display` form, which is always
/// 36 characters long.
#[verifier::external_body]
fn new_uuid_string() -> (r: String)
    ensures
        r@.len() == 36,
{
    uuid::Uuid::new_v4().to_string()
}

/// The head of a page: its `<meta>` and `<link>` entries.
pub struct PageHead {
    pub meta: Option<Vec<MetaDefinition>>,
    pub link: Option<Vec<LinkDefinition>>,
}

#[verifier::ext_equal]
pub struct PageHeadV {
    pub meta: Option<Seq<MetaDefinitionV>>,
    pub link: Option<Seq<LinkDefinitionV>>,
}

impl View for PageHead {
    type V = PageHeadV;

    open spec fn view(&self) -> PageHeadV {
        PageHeadV {
            meta: match self.meta {
                Some(m) => Some(m@.map_values(|d: MetaDefinition| d@)),
                None => None,
            },
            link: match self.link {
                Some(l) => Some(l@.map_values(|d: LinkDefinition| d@)),
                None => None,
            },
        }
    }
}

impl PageHead {
    pub fn new() -> (r: PageHead)
        ensures
            r@.meta is None,
            r@.link is None,
    {
        PageHead { meta: None, link: None }
    }
}

/// A page definition: an ordered tree of elements plus metadata.
pub struct Page {
    pub title: String,
    pub path: String,
    pub store: String,
    pub url: Option<String>,
    pub template: Option<String>,
    pub children: Vec<Element>,
    pub cache: Vec<String>,
    pub last_modified: Option<String>,
    pub head: Option<PageHead>,
    pub css_variables: StrDict,
}

#[verifier::ext_equal]
pub struct PageV {
    pub title: Seq<char>,
    pub path: Seq<char>,
    pub store: Seq<char>,
    pub url: Option<Seq<char>>,
    pub template: Option<Seq<char>>,
    pub children: Seq<ElemV>,
    pub cache: Seq<Seq<char>>,
    pub last_modified: Option<Seq<char>>,
    pub head: Option<PageHeadV>,
    pub css_variables: Seq<(Seq<char>, Seq<char>)>,
}

/// The abstract value of an optional string.
pub open spec fn opt_str_view(o: Option<String>) -> Option<Seq<char>> {
    match o {
        Some(s) => Some(s@),
        None => None,
    }
}

impl View for Page {
    type V = PageV;

    open spec fn view(&self) -> PageV {
        PageV {
            title: self.title@,
            path: self.path@,
            store: self.store@,
            url: opt_str_view(self.url),
            template: opt_str_view(self.template),
            children: elems_view(self.children@),
            cache: self.cache@.map_values(|c: String| c@),
            last_modified: opt_str_view(self.last_modified),
            head: match self.head {
                Some(h) => Some(h@),
                None => None,
            },
            css_variables: self.css_variables@,
        }
    }
}

impl Page {
    pub fn new() -> (r: Page)
        ensures
            r@.title.len() == 0,
            r@.path.len() == 0,
            r@.store.len() == 0,
            r@.url is None,
            r@.template is None,
            r@.children.len() == 0,
            r@.cache.len() == 0,
            r@.last_modified is None,
            r@.head is None,
            r@.css_variables.len() == 0,
    {
        let r = Page {
            title: String::new(),
            path: String::new(),
            store: String::new(),
            url: None,
            template: None,
            children: Vec::new(),
            cache: Vec::new(),
            last_modified: None,
            head: None,
            css_variables: StrDict::new(),
        };
        proof {
            assert(r@.children =~= Seq::<ElemV>::empty());
            assert(r@.cache =~= Seq::<Seq<char>>::empty());
        }
        r
    }

    pub fn with_title(self, title: String) -> (r: Page)
        ensures
            r@ == (PageV { title: title@, ..self@ }),
    {
        Page { title, ..self }
    }

    pub fn with_path(self, path: String) -> (r: Page)
        ensures
            r@ == (PageV { path: path@, ..self@ }),
    {
        Page { path, ..self }
    }

    pub fn with_url(self, url: String) -> (r: Page)
        ensures
            r@ == (PageV { url: Some(url@), ..self@ }),
    {
        Page { url: Some(url), ..self }
    }

    pub fn with_template(self, template: String) -> (r: Page)
        ensures
            r@ == (PageV { template: Some(template@), ..self@ }),
    {
        Page { template: Some(template), ..self }
    }

    pub fn with_children(self, children: Vec<Element>) -> (r: Page)
        ensures
            r@ == (PageV { children: elems_view(children@), ..self@ }),
    {
        let r = Page { children, ..self };
        proof {
            assert(r@.children =~= elems_view(children@));
            assert(r@ == (PageV { children: elems_view(children@), ..self@ }));
        }
        r
    }

    pub fn with_head(self, head: PageHead) -> (r: Page)
        ensures
            r@ == (PageV { head: Some(head@), ..self@ }),
    {
        Page { head: Some(head), ..self }
    }

    /// Normalizes every element id in the page, as `Element::fix` does.
    pub fn fix(self) -> (r: Page)
        ensures
            page_fixed(self@, r@),
    {
        let Page {
            title,
            path,
            store,
            url,
            template,
            children,
            cache,
            last_modified,
            head,
            css_variables,
        } = self;
        let mut rest = children;
        let mut new_children: Vec<Element> = Vec::new();
        let ghost orig: Seq<Element> = rest@;
        let n = rest.len();
        let mut k: usize = 0;
        proof {
            assert(orig.skip(0) =~= orig);
        }
        while rest.len() > 0
            invariant
                n == orig.len(),
                k <= n,
                rest@ == orig.skip(k as int),
                new_children@.len() == k,
                forall|i: int| 0 <= i < k ==> elem_fixed(
                    elem_view(#[trigger] orig[i]),
                    elem_view(new_children@[i]),
                ),
            decreases rest@.len(),
        {
            let c = rest.remove(0);
            proof {
                assert(orig.skip(k as int)[0] == orig[k as int]);
                assert(c == orig[k as int]);
                assert(rest@ =~= orig.skip(k + 1));
            }
            let fixed = c.fix();
            new_children.push(fixed);
            k = k + 1;
        }
        proof {
            assert(orig.skip(k as int).len() == 0);
            assert(k == orig.len());
        }
        let r = Page {
            title,
            path,
            store,
            url,
            template,
            children: new_children,
            cache,
            last_modified,
            head,
            css_variables,
        };
        proof {
            assert forall|i: int| 0 <= i < self@.children.len() implies elem_fixed(
                #[trigger] self@.children[i],
                r@.children[i],
            ) by {
                assert(orig[i] == orig[i]);
                assert(self@.children[i] == elem_view(orig[i]));
                assert(r@.children[i] == elem_view(new_children@[i]));
            }
        }
        r
    }
}

/// The result of normalizing a page: the children are normalized and every
/// other field is unchanged.
pub open spec fn page_fixed(o: PageV, n: PageV) -> bool {
    &&& n.title == o.title
    &&& n.path == o.path
    &&& n.store == o.store
    &&& n.url == o.url
    &&& n.template == o.template
    &&& n.cache == o.cache
    &&& n.last_modified == o.last_modified
    &&& n.head == o.head
    &&& n.css_variables == o.css_variables
    &&& n.children.len() == o.children.len()
    &&& forall|i: int| 0 <= i < o.children.len() ==> elem_fixed(
        #[trigger] o.children[i],
        n.children[i],
    )
}

/// Every element of the tree has a non-empty id that does not start with a
/// digit.
pub open spec fn elem_ids_ok(e: ElemV) -> bool
    decreases e,
{
    &&& e.id.len() > 0
    &&& !is_digit(e.id[0])
    &&& forall|i: int| 0 <= i < e.children.len() ==> elem_ids_ok(#[trigger] e.children[i])
}

/// Every non-empty id already present in the tree avoids a leading digit.
pub open spec fn elem_ids_clean(e: ElemV) -> bool
    decreases e,
{
    &&& (e.id.len() > 0 ==> !is_digit(e.id[0]))
    &&& forall|i: int| 0 <= i < e.children.len() ==> elem_ids_clean(#[trigger] e.children[i])
}

/// Normalization leaves every element of the tree with a non-empty id that
/// does not start with a digit, as long as the ids already present avoided a
/// leading digit.
pub proof fn lemma_fixed_ids_ok(o: ElemV, n: ElemV)
    requires
        elem_fixed(o, n),
        elem_ids_clean(o),
    ensures
        elem_ids_ok(n),
    decreases o,
{
    assert forall|i: int| 0 <= i < n.children.len() implies elem_ids_ok(
        #[trigger] n.children[i],
    ) by {
        assert(o.children[i] == o.children[i]);
        assert(elem_fixed(o.children[i], n.children[i]));
        assert(elem_ids_clean(o.children[i]));
        lemma_fixed_ids_ok(o.children[i], n.children[i]);
    }
}

/// The page-level form of the same law.
pub proof fn lemma_page_fixed_ids_ok(o: PageV, n: PageV)
    requires
        page_fixed(o, n),
        forall|i: int| 0 <= i < o.children.len() ==> elem_ids_clean(#[trigger] o.children[i]),
    ensures
        forall|i: int| 0 <= i < n.children.len() ==> elem_ids_ok(#[trigger] n.children[i]),
{
    assert forall|i: int| 0 <= i < n.children.len() implies elem_ids_ok(
        #[trigger] n.children[i],
    ) by {
        assert(elem_fixed(o.children[i], n.children[i]));
        assert(elem_ids_clean(o.children[i]));
        lemma_fixed_ids_ok(o.children[i], n.children[i]);
    }
}

/// A short page descriptor for listings.
pub struct PageInfo {
    pub id: String,
    pub store: String,
    pub title: String,
    pub url: String,
}

#[verifier::ext_equal]
pub struct PageInfoV {
    pub id: Seq<char>,
    pub store: Seq<char>,
    pub title: Seq<char>,
    pub url: Seq<char>,
}

impl View for PageInfo {
    type V = PageInfoV;

    open spec fn view(&self) -> PageInfoV {
        PageInfoV { id: self.id@, store: self.store@, title: self.title@, url: self.url@ }
    }
}

/// A page listing with its total count.
pub struct ResultPageList {
    pub count: usize,
    pub results: Vec<PageInfo>,
}

/// A named CSS fragment offered by a store.
pub struct CssClass {
    pub name: String,
    pub description: String,
    pub css: String,
    pub tags: Vec<String>,
}

#[verifier::ext_equal]
pub struct CssClassV {
    pub name: Seq<char>,
    pub description: Seq<char>,
    pub css: Seq<char>,
    pub tags: Seq<Seq<char>>,
}

impl View for CssClass {
    type V = CssClassV;

    open spec fn view(&self) -> CssClassV {
        CssClassV {
            name: self.name@,
            description: self.description@,
            css: self.css@,
            tags: self.tags@.map_values(|t: String| t@),
        }
    }
}

impl WidgetEditorOption {
    /// A copy with the same fields.
    pub fn duplicate(&self) -> (r: WidgetEditorOption)
        ensures
            r@ == self@,
    {
        WidgetEditorOption {
            label: crate::strutil::string_clone(&self.label),
            value: crate::strutil::string_clone(&self.value),
            icon: crate::strutil::string_clone(&self.icon),
        }
    }
}

impl WidgetEditor {
    /// A copy with the same fields.
    pub fn duplicate(&self) -> (r: WidgetEditor)
        ensures
            r@ == self@,
    {
        let n = self.options.len();
        let mut options: Vec<WidgetEditorOption> = Vec::new();
        let mut i: usize = 0;
        while i < n
            invariant
                i <= n,
                n == self.options@.len(),
                options@.len() == i,
                forall|j: int| 0 <= j < i ==> (#[trigger] options@[j])@ == self.options@[j]@,
            decreases n - i,
        {
            options.push(self.options[i].duplicate());
            i = i + 1;
        }
        let r = WidgetEditor {
            editor_type: crate::strutil::string_clone(&self.editor_type),
            label: crate::strutil::string_clone(&self.label),
            name: crate::strutil::string_clone(&self.name),
            placeholder: crate::strutil::string_clone(&self.placeholder),
            options,
        };
        proof {
            assert(r@.options =~= self@.options);
        }
        r
    }
}

impl Widget {
    /// A copy with the same fields.
    pub fn duplicate(&self) -> (r: Widget)
        ensures
            r@ == self@,
    {
        let n = self.editor.len();
        let mut editor: Vec<WidgetEditor> = Vec::new();
        let mut i: usize = 0;
        while i < n
            invariant
                i <= n,
                n == self.editor@.len(),
                editor@.len() == i,
                forall|j: int| 0 <= j < i ==> (#[trigger] editor@[j])@ == self.editor@[j]@,
            decreases n - i,
        {
            editor.push(self.editor[i].duplicate());
            i = i + 1;
        }
        let r = Widget {
            name: crate::strutil::string_clone(&self.name),
            description: crate::strutil::string_clone(&self.description),
            icon: crate::strutil::string_clone(&self.icon),
            html: crate::strutil::string_clone(&self.html),
            css: crate::strutil::string_clone(&self.css),
            editor,
        };
        proof {
            assert(r@.editor =~= self@.editor);
        }
        r
    }
}

impl CssClass {
    /// A copy with the same fields.
    pub fn duplicate(&self) -> (r: CssClass)
        ensures
            r@ == self@,
    {
        let r = CssClass {
            name: crate::strutil::string_clone(&self.name),
            description: crate::strutil::string_clone(&self.description),
            css: crate::strutil::string_clone(&self.css),
            tags: crate::strutil::clone_strings(&self.tags),
        };
        proof {
            assert(r@.tags =~= self@.tags);
        }
        r
    }
}

impl MetaDefinition {
    /// A copy with the same fields.
    pub fn duplicate(&self) -> (r: MetaDefinition)
        ensures
            r@ == self@,
    {
        MetaDefinition {
            name: crate::strutil::string_clone(&self.name),
            content: crate::strutil::string_clone(&self.content),
        }
    }
}

impl LinkDefinition {
    /// A copy with the same fields.
    pub fn duplicate(&self) -> (r: LinkDefinition)
        ensures
            r@ == self@,
    {
        LinkDefinition {
            href: crate::strutil::string_clone(&self.href),
            rel: crate::strutil::string_clone(&self.rel),
        }
    }
}

impl PageHead {
    /// A copy with the same fields.
    pub fn duplicate(&self) -> (r: PageHead)
        ensures
            r@ == self@,
    {
        let meta = match &self.meta {
            Some(m) => {
                let n = m.len();
                let mut out: Vec<MetaDefinition> = Vec::new();
                let mut i: usize = 0;
                while i < n
                    invariant
                        i <= n,
                        n == m@.len(),
                        out@.len() == i,
                        forall|j: int| 0 <= j < i ==> (#[trigger] out@[j])@ == m@[j]@,
                    decreases n - i,
                {
                    out.push(m[i].duplicate());
                    i = i + 1;
                }
                Some(out)
            },
            None => None,
        };
        let link = match &self.link {
            Some(l) => {
                let n = l.len();
                let mut out: Vec<LinkDefinition> = Vec::new();
                let mut i: usize = 0;
                while i < n
                    invariant
                        i <= n,
                        n == l@.len(),
                        out@.len() == i,
                        forall|j: int| 0 <= j < i ==> (#[trigger] out@[j])@ == l@[j]@,
                    decreases n - i,
                {
                    out.push(l[i].duplicate());
                    i = i + 1;
                }
                Some(out)
            },
            None => None,
        };
        let r = PageHead { meta, link };
        proof {
            match (&self.meta, &r.meta) {
                (Some(a), Some(b)) => {
                    assert(a@.map_values(|d: MetaDefinition| d@) =~= b@.map_values(
                        |d: MetaDefinition| d@,
                    ));
                },
                _ => {},
            }
            match (&self.link, &r.link) {
                (Some(a), Some(b)) => {
                    assert(a@.map_values(|d: LinkDefinition| d@) =~= b@.map_values(
                        |d: LinkDefinition| d@,
                    ));
                },
                _ => {},
            }
        }
        r
    }
}

impl Element {
    /// A deep copy of the element tree.
    pub fn duplicate(&self) -> (r: Element)
        ensures
            r@ == self@,
        decreases self,
    {
        let n = self.children.len();
        let mut children: Vec<Element> = Vec::new();
        let mut i: usize = 0;
        while i < n
            invariant
                i <= n,
                n == self.children@.len(),
                children@.len() == i,
                forall|j: int| 0 <= j < i ==> elem_view(#[trigger] children@[j]) == elem_view(
                    self.children@[j],
                ),
            decreases n - i,
        {
            proof {
                assert(decreases_to!(*self => self.children));
                assert(decreases_to!(self.children => self.children@));
                assert(decreases_to!(self.children@ => self.children@[i as int]));
            }
            let c = self.children[i].duplicate();
            children.push(c);
            i = i + 1;
        }
        let r = Element {
            id: crate::strutil::string_clone(&self.id),
            widget: crate::strutil::string_clone(&self.widget),
            data: self.data.duplicate(),
            children,
            style: self.style.duplicate(),
            classes: crate::strutil::clone_strings(&self.classes),
        };
        proof {
            assert(r@.children =~= self@.children);
            assert(r@.classes =~= self@.classes);
        }
        r
    }
}

impl Page {
    /// A deep copy of the page.
    pub fn duplicate(&self) -> (r: Page)
        ensures
            r@ == self@,
    {
        let n = self.children.len();
        let mut children: Vec<Element> = Vec::new();
        let mut i: usize = 0;
        while i < n
            invariant
                i <= n,
                n == self.children@.len(),
                children@.len() == i,
                forall|j: int| 0 <= j < i ==> elem_view(#[trigger] children@[j]) == elem_view(
                    self.children@[j],
                ),
            decreases n - i,
        {
            let c = self.children[i].duplicate();
            children.push(c);
            i = i + 1;
        }
        let r = Page {
            title: crate::strutil::string_clone(&self.title),
            path: crate::strutil::string_clone(&self.path),
            store: crate::strutil::string_clone(&self.store),
            url: clone_opt_string(&self.url),
            template: clone_opt_string(&self.template),
            children,
            cache: crate::strutil::clone_strings(&self.cache),
            last_modified: clone_opt_string(&self.last_modified),
            head: match &self.head {
                Some(h) => Some(h.duplicate()),
                None => None,
            },
            css_variables: self.css_variables.duplicate(),
        };
        proof {
            assert(r@.children =~= self@.children);
            assert(r@.cache =~= self@.cache);
        }
        r
    }
}

/// A copy of an optional string.
pub fn clone_opt_string(o: &Option<String>) -> (r: Option<String>)
    ensures
        opt_str_view(r) == opt_str_view(*o),
{
    match o {
        Some(s) => Some(crate::strutil::string_clone(s)),
        None => None,
    }
}

impl PageInfo {
    /// A copy with the same fields.
    pub fn duplicate(&self) -> (r: PageInfo)
        ensures
            r@ == self@,
    {
        PageInfo {
            id: crate::strutil::string_clone(&self.id),
            store: crate::strutil::string_clone(&self.store),
            title: crate::strutil::string_clone(&self.title),
            url: crate::strutil::string_clone(&self.url),
        }
    }
}

/// A CSS class summary: name, description and tags only.
pub struct CssClassResult {
    pub name: String,
    pub description: String,
    pub tags: Vec<String>,
}

/// A list of CSS class summaries with its total count.
pub struct CssClassResults {
    pub count: usize,
    pub results: Vec<CssClassResult>,
}

} // verus!
