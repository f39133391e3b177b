use vstd::prelude::*;

use crate::codestore::{code_widget, CodeStore};
use crate::dict::StrDict;
use crate::filestore::FileStore;
use crate::memstore::{classes_lookup, pages_lookup, widgets_lookup, MemStore};
use crate::pagetypes::{
    CssClass, CssClassV, Page, PageInfo, PageInfoV, PageV, ResultPageList, Widget, WidgetResults,
    WidgetV,
};
use crate::strutil::{spec_split_all, spec_split_at, split_all, split_at_char};
use crate::types::{StoreError, StoreErrorV};

verus! {

/// One concrete store backend.
pub enum StoreBackend {
    Mem(MemStore),
    File(FileStore),
    Code(CodeStore),
}

/// The abstract value of a backend: what each kind can serve.
#[verifier::ext_equal]
pub enum BackendV {
    Mem {
        widgets: Seq<WidgetV>,
        classes: Seq<CssClassV>,
        pages: Seq<(Seq<char>, PageV)>,
    },
    File {
        has_widgets: bool,
        has_css_classes: bool,
        widgets: Seq<WidgetV>,
        classes: Seq<CssClassV>,
    },
    Code,
}

impl View for StoreBackend {
    type V = BackendV;

    open spec fn view(&self) -> BackendV {
        match self {
            StoreBackend::Mem(m) => BackendV::Mem {
                widgets: m.widgets_v(),
                classes: m.classes_v(),
                pages: m.pages_v(),
            },
            StoreBackend::File(f) => BackendV::File {
                has_widgets: f.has_widgets,
                has_css_classes: f.has_css_classes,
                widgets: f.widgets_v(),
                classes: f.classes_v(),
            },
            StoreBackend::Code(_) => BackendV::Code,
        }
    }
}

/// The widget a backend serves under `path`, if any.
pub open spec fn backend_widget(b: BackendV, path: Seq<char>) -> Option<WidgetV> {
    match b {
        BackendV::Mem { widgets, .. } => widgets_lookup(widgets, path),
        BackendV::File { has_widgets, widgets, .. } => if has_widgets {
            widgets_lookup(widgets, path)
        } else {
            None
        },
        BackendV::Code => code_widget(path),
    }
}

/// The CSS class a backend serves under `name`, if any.
pub open spec fn backend_class(b: BackendV, name: Seq<char>) -> Option<CssClassV> {
    match b {
        BackendV::Mem { classes, .. } => classes_lookup(classes, name),
        BackendV::File { has_css_classes, classes, .. } => if has_css_classes {
            classes_lookup(classes, name)
        } else {
            None
        },
        BackendV::Code => None,
    }
}

/// The page a backend serves under `path`, if any. File-backed pages live on
/// disk, outside the library, so the file backend serves none here.
pub open spec fn backend_page(b: BackendV, path: Seq<char>) -> Option<PageV> {
    match b {
        BackendV::Mem { pages, .. } => pages_lookup(pages, path),
        BackendV::File { .. } => None,
        BackendV::Code => None,
    }
}

impl StoreBackend {
    /// The widget stored under `path`, if any.
    pub fn load_widget_definition(&self, path: &str) -> (r: Option<Widget>)
        ensures
            match r {
                Some(w) => backend_widget(self@, path@) == Some(w@),
                None => backend_widget(self@, path@) == None::<WidgetV>,
            },
    {
        match self {
            StoreBackend::Mem(m) => m.load_widget_definition(path),
            StoreBackend::File(f) => f.load_widget_definition(path),
            StoreBackend::Code(c) => c.load_widget_definition(path),
        }
    }

    /// The CSS class stored under `name`, if any.
    pub fn load_css_class_definition(&self, name: &str) -> (r: Option<CssClass>)
        ensures
            match r {
                Some(c) => backend_class(self@, name@) == Some(c@),
                None => backend_class(self@, name@) == None::<CssClassV>,
            },
    {
        match self {
            StoreBackend::Mem(m) => m.load_css_class_definition(name),
            StoreBackend::File(f) => f.load_css_class_definition(name),
            StoreBackend::Code(_) => None,
        }
    }

    /// The page stored under `path`, if any.
    pub fn load_page_definition(&self, path: &str) -> (r: Option<Page>)
        ensures
            match r {
                Some(p) => backend_page(self@, path@) == Some(p@),
                None => backend_page(self@, path@) == None::<PageV>,
            },
    {
        match self {
            StoreBackend::Mem(m) => m.load_page_definition(path),
            StoreBackend::File(_) => None,
            StoreBackend::Code(_) => None,
        }
    }
}

/// The composite of all stores, addressed by `store/path` keys.
pub struct StoreFactory {
    pub stores: Vec<(String, StoreBackend)>,
}

/// The abstract value of the federation: named backends, in order.
pub open spec fn sf_v(stores: Seq<(String, StoreBackend)>) -> Seq<(Seq<char>, BackendV)> {
    Seq::new(
        stores.len(),
        |i: int|
            if 0 <= i < stores.len() {
                (stores[i].0@, stores[i].1@)
            } else {
                arbitrary()
            },
    )
}

/// The first backend registered under `name`, if any.
pub open spec fn sf_lookup(sf: Seq<(Seq<char>, BackendV)>, name: Seq<char>) -> Option<BackendV>
    decreases sf.len(),
{
    if sf.len() == 0 {
        None
    } else if sf[0].0 == name {
        Some(sf[0].1)
    } else {
        sf_lookup(sf.drop_first(), name)
    }
}

/// The first widget any of the named stores serves for `sub`; unknown store
/// names are skipped.
pub open spec fn sf_try_widget(
    sf: Seq<(Seq<char>, BackendV)>,
    names: Seq<Seq<char>>,
    sub: Seq<char>,
) -> Option<WidgetV>
    decreases names.len(),
{
    if names.len() == 0 {
        None
    } else {
        let rest = sf_try_widget(sf, names.drop_first(), sub);
        match sf_lookup(sf, names[0]) {
            None => rest,
            Some(b) => match backend_widget(b, sub) {
                Some(w) => Some(w),
                None => rest,
            },
        }
    }
}

/// The first CSS class any of the named stores serves for `sub`.
pub open spec fn sf_try_class(
    sf: Seq<(Seq<char>, BackendV)>,
    names: Seq<Seq<char>>,
    sub: Seq<char>,
) -> Option<CssClassV>
    decreases names.len(),
{
    if names.len() == 0 {
        None
    } else {
        let rest = sf_try_class(sf, names.drop_first(), sub);
        match sf_lookup(sf, names[0]) {
            None => rest,
            Some(b) => match backend_class(b, sub) {
                Some(c) => Some(c),
                None => rest,
            },
        }
    }
}

/// The first page any of the named stores serves for `sub`.
pub open spec fn sf_try_page(
    sf: Seq<(Seq<char>, BackendV)>,
    names: Seq<Seq<char>>,
    sub: Seq<char>,
) -> Option<PageV>
    decreases names.len(),
{
    if names.len() == 0 {
        None
    } else {
        let rest = sf_try_page(sf, names.drop_first(), sub);
        match sf_lookup(sf, names[0]) {
            None => rest,
            Some(b) => match backend_page(b, sub) {
                Some(p) => Some(p),
                None => rest,
            },
        }
    }
}

/// What a read of `path` through the federation yields: the store prefix may
/// name an ordered fallback list, and the first backend with a value wins.
pub open spec fn sf_load_widget(sf: Seq<(Seq<char>, BackendV)>, path: Seq<char>) -> Result<
    Option<WidgetV>,
    StoreErrorV,
> {
    match spec_split_at(path, '/') {
        None => Err(StoreErrorV::InvalidPath { path }),
        Some((store_spec, sub)) => Ok(sf_try_widget(sf, spec_split_all(store_spec, '|'), sub)),
    }
}

/// As `sf_load_widget`, for CSS classes.
pub open spec fn sf_load_class(sf: Seq<(Seq<char>, BackendV)>, path: Seq<char>) -> Result<
    Option<CssClassV>,
    StoreErrorV,
> {
    match spec_split_at(path, '/') {
        None => Err(StoreErrorV::InvalidPath { path }),
        Some((store_spec, sub)) => Ok(sf_try_class(sf, spec_split_all(store_spec, '|'), sub)),
    }
}

/// As `sf_load_widget`, for pages; a page no listed store holds is an error.
pub open spec fn sf_load_page(sf: Seq<(Seq<char>, BackendV)>, path: Seq<char>) -> Result<
    PageV,
    StoreErrorV,
> {
    match spec_split_at(path, '/') {
        None => Err(StoreErrorV::InvalidPath { path }),
        Some((store_spec, sub)) => match sf_try_page(
            sf,
            spec_split_all(store_spec, '|'),
            sub,
        ) {
            Some(p) => Ok(p),
            None => Err(StoreErrorV::PageNotFound { path }),
        },
    }
}

impl StoreFactory {
    /// The abstract value of this federation.
    pub open spec fn view_v(&self) -> Seq<(Seq<char>, BackendV)> {
        sf_v(self.stores@)
    }

    pub fn new() -> (r: StoreFactory)
        ensures
            r.view_v() =~= Seq::<(Seq<char>, BackendV)>::empty(),
    {
        StoreFactory { stores: Vec::new() }
    }

    /// Registers a backend under `name`: a backend already registered under
    /// that name is replaced in place, any other name is appended. Afterwards
    /// a lookup of `name` serves the new backend and every other name is
    /// untouched.
    pub fn add_store(&mut self, name: &str, store: StoreBackend)
        ensures
            sf_lookup(final(self).view_v(), name@) == Some(store@),
            forall|q: Seq<char>| q != name@ ==> #[trigger] sf_lookup(final(self).view_v(), q)
                == sf_lookup(old(self).view_v(), q),
            (forall|j: int| 0 <= j < old(self).view_v().len() ==> (#[trigger] old(
                self,
            ).view_v()[j]).0 != name@) ==> final(self).view_v() =~= old(self).view_v().push(
                (name@, store@),
            ),
            (exists|j: int|
                0 <= j < old(self).view_v().len() && (#[trigger] old(self).view_v()[j]).0
                    == name@) ==> exists|i: int|
                {
                    &&& 0 <= i < old(self).view_v().len()
                    &&& (#[trigger] old(self).view_v()[i]).0 == name@
                    &&& (forall|j: int| 0 <= j < i ==> old(self).view_v()[j].0 != name@)
                    &&& final(self).view_v() =~= old(self).view_v().update(i, (name@, store@))
                },
    {
        let ghost sfv = self.view_v();
        let n = self.stores.len();
        let mut i: usize = 0;
        while i < n
            invariant
                i <= n,
                n == self.stores@.len(),
                self == old(self),
                sfv == self.view_v(),
                forall|j: int| 0 <= j < i ==> (#[trigger] sfv[j]).0 != name@,
            decreases n - i,
        {
            proof {
                assert(sfv[i as int].0 == self.stores@[i as int].0@);
            }
            if crate::strutil::str_eq(self.stores[i].0.as_str(), name) {
                self.stores.remove(i);
                self.stores.insert(i, (String::from_str(name), store));
                proof {
                    assert(self.view_v() =~= sfv.update(i as int, (name@, self.view_v()[
                        i as int].1)));
                    assert(self.view_v()[i as int].1 == store@);
                    assert(self.view_v() =~= sfv.update(i as int, (name@, store@)));
                    lemma_lookup_first_hit(self.view_v(), name@, i as int);
                    assert forall|q: Seq<char>| q != name@ implies #[trigger] sf_lookup(
                        self.view_v(),
                        q,
                    ) == sf_lookup(sfv, q) by {
                        lemma_lookup_update_other(sfv, self.view_v(), i as int, q);
                    }
                }
                return ;
            }
            i = i + 1;
        }
        self.stores.push((String::from_str(name), store));
        proof {
            assert(self.view_v() =~= sfv.push((name@, store@)));
            lemma_lookup_all_missing(sfv, name@);
            lemma_lookup_snoc(sfv, (name@, store@), name@);
            assert forall|q: Seq<char>| q != name@ implies #[trigger] sf_lookup(
                self.view_v(),
                q,
            ) == sf_lookup(sfv, q) by {
                lemma_lookup_snoc(sfv, (name@, store@), q);
            }
        }
    }

    /// The backend registered under `name`, if any.
    pub fn get_store(&self, name: &str) -> (r: Option<&StoreBackend>)
        ensures
            match r {
                Some(b) => sf_lookup(self.view_v(), name@) == Some(b@),
                None => sf_lookup(self.view_v(), name@) == None::<BackendV>,
            },
    {
        let n = self.stores.len();
        let mut i: usize = 0;
        proof {
            assert(self.view_v().skip(0) =~= self.view_v());
        }
        while i < n
            invariant
                i <= n,
                n == self.stores@.len(),
                sf_lookup(self.view_v().skip(i as int), name@) == sf_lookup(
                    self.view_v(),
                    name@,
                ),
            decreases n - i,
        {
            proof {
                assert(self.view_v().skip(i as int)[0] == self.view_v()[i as int]);
                assert(self.view_v().skip(i as int).drop_first() =~= self.view_v().skip(i + 1));
            }
            if crate::strutil::str_eq(self.stores[i].0.as_str(), name) {
                return Some(&self.stores[i].1);
            }
            i = i + 1;
        }
        proof {
            assert(self.view_v().skip(n as int).len() == 0);
        }
        None
    }

    /// Splits a `store/path` key at its first slash; a key without a slash is
    /// an invalid path.
    pub fn split_path(&self, path: &str) -> (r: Result<(String, String), StoreError>)
        ensures
            match r {
                Ok((store, sub)) => spec_split_at(path@, '/') == Some((store@, sub@)),
                Err(e) => spec_split_at(path@, '/') == None::<(Seq<char>, Seq<char>)> && e@
                    == (StoreErrorV::InvalidPath { path: path@ }),
            },
    {
        match split_at_char(path, '/') {
            Some((store, sub)) => Ok((store, sub)),
            None => Err(StoreError::InvalidPath { path: String::from_str(path) }),
        }
    }

    /// Loads a widget definition through the federation, trying each store of
    /// a pipe-separated fallback list in order.
    pub fn load_widget_definition(&self, path: &str) -> (r: Result<Option<Widget>, StoreError>)
        ensures
            match r {
                Ok(Some(w)) => sf_load_widget(self.view_v(), path@) == Ok::<
                    Option<WidgetV>,
                    StoreErrorV,
                >(Some(w@)),
                Ok(None) => sf_load_widget(self.view_v(), path@) == Ok::<
                    Option<WidgetV>,
                    StoreErrorV,
                >(None),
                Err(e) => sf_load_widget(self.view_v(), path@) == Err::<
                    Option<WidgetV>,
                    StoreErrorV,
                >(e@),
            },
    {
        let (store_spec, sub) = match self.split_path(path) {
            Ok(p) => p,
            Err(e) => {
                return Err(e);
            },
        };
        let names = split_all(store_spec.as_str(), '|');
        let ghost names_v = spec_split_all(store_spec@, '|');
        let n = names.len();
        let mut i: usize = 0;
        proof {
            assert(names_v.skip(0) =~= names_v);
        }
        while i < n
            invariant
                i <= n,
                n == names@.len(),
                spec_split_at(path@, '/') == Some((store_spec@, sub@)),
                names_v == spec_split_all(store_spec@, '|'),
                crate::strutil::strs_of(names@) == names_v,
                sf_try_widget(self.view_v(), names_v.skip(i as int), sub@) == sf_try_widget(
                    self.view_v(),
                    names_v,
                    sub@,
                ),
            decreases n - i,
        {
            proof {
                assert(names_v.skip(i as int)[0] == names_v[i as int]);
                assert(names_v[i as int] == names@[i as int]@);
                assert(names_v.skip(i as int).drop_first() =~= names_v.skip(i + 1));
            }
            match self.get_store(names[i].as_str()) {
                Some(backend) => {
                    match backend.load_widget_definition(sub.as_str()) {
                        Some(w) => {
                            return Ok(Some(w));
                        },
                        None => {},
                    }
                },
                None => {},
            }
            i = i + 1;
        }
        proof {
            assert(names_v.skip(n as int).len() == 0);
        }
        Ok(None)
    }

    /// Loads a CSS class definition through the federation, with the same
    /// fallback rule as widgets.
    pub fn load_css_class_definition(&self, path: &str) -> (r: Result<
        Option<CssClass>,
        StoreError,
    >)
        ensures
            match r {
                Ok(Some(c)) => sf_load_class(self.view_v(), path@) == Ok::<
                    Option<CssClassV>,
                    StoreErrorV,
                >(Some(c@)),
                Ok(None) => sf_load_class(self.view_v(), path@) == Ok::<
                    Option<CssClassV>,
                    StoreErrorV,
                >(None),
                Err(e) => sf_load_class(self.view_v(), path@) == Err::<
                    Option<CssClassV>,
                    StoreErrorV,
                >(e@),
            },
    {
        let (store_spec, sub) = match self.split_path(path) {
            Ok(p) => p,
            Err(e) => {
                return Err(e);
            },
        };
        let names = split_all(store_spec.as_str(), '|');
        let ghost names_v = spec_split_all(store_spec@, '|');
        let n = names.len();
        let mut i: usize = 0;
        proof {
            assert(names_v.skip(0) =~= names_v);
        }
        while i < n
            invariant
                i <= n,
                n == names@.len(),
                spec_split_at(path@, '/') == Some((store_spec@, sub@)),
                names_v == spec_split_all(store_spec@, '|'),
                crate::strutil::strs_of(names@) == names_v,
                sf_try_class(self.view_v(), names_v.skip(i as int), sub@) == sf_try_class(
                    self.view_v(),
                    names_v,
                    sub@,
                ),
            decreases n - i,
        {
            proof {
                assert(names_v.skip(i as int)[0] == names_v[i as int]);
                assert(names_v[i as int] == names@[i as int]@);
                assert(names_v.skip(i as int).drop_first() =~= names_v.skip(i + 1));
            }
            match self.get_store(names[i].as_str()) {
                Some(backend) => {
                    match backend.load_css_class_definition(sub.as_str()) {
                        Some(c) => {
                            return Ok(Some(c));
                        },
                        None => {},
                    }
                },
                None => {},
            }
            i = i + 1;
        }
        proof {
            assert(names_v.skip(n as int).len() == 0);
        }
        Ok(None)
    }

    /// Loads a page definition through the federation: the first store of the
    /// fallback list that holds the page wins, and a page no listed store
    /// holds is a not-found error.
    pub fn load_page_definition(&self, path: &str) -> (r: Result<Page, StoreError>)
        ensures
            match r {
                Ok(p) => sf_load_page(self.view_v(), path@) == Ok::<PageV, StoreErrorV>(p@),
                Err(e) => sf_load_page(self.view_v(), path@) == Err::<PageV, StoreErrorV>(e@),
            },
    {
        let (store_spec, sub) = match self.split_path(path) {
            Ok(p) => p,
            Err(e) => {
                return Err(e);
            },
        };
        let names = split_all(store_spec.as_str(), '|');
        let ghost names_v = spec_split_all(store_spec@, '|');
        let n = names.len();
        let mut i: usize = 0;
        proof {
            assert(names_v.skip(0) =~= names_v);
        }
        while i < n
            invariant
                i <= n,
                n == names@.len(),
                spec_split_at(path@, '/') == Some((store_spec@, sub@)),
                names_v == spec_split_all(store_spec@, '|'),
                crate::strutil::strs_of(names@) == names_v,
                sf_try_page(self.view_v(), names_v.skip(i as int), sub@) == sf_try_page(
                    self.view_v(),
                    names_v,
                    sub@,
                ),
            decreases n - i,
        {
            proof {
                assert(names_v.skip(i as int)[0] == names_v[i as int]);
                assert(names_v[i as int] == names@[i as int]@);
                assert(names_v.skip(i as int).drop_first() =~= names_v.skip(i + 1));
            }
            match self.get_store(names[i].as_str()) {
                Some(backend) => {
                    match backend.load_page_definition(sub.as_str()) {
                        Some(p) => {
                            return Ok(p);
                        },
                        None => {},
                    }
                },
                None => {},
            }
            i = i + 1;
        }
        proof {
            assert(names_v.skip(n as int).len() == 0);
        }
        Err(StoreError::PageNotFound { path: String::from_str(path) })
    }
}

/// The listing entries one backend contributes, with the backend's name
/// filled into each item's `store` field and the listing filter applied to
/// the item's id. Only the in-process backend serves pages here.
pub open spec fn backend_infos(
    name: Seq<char>,
    b: BackendV,
    ftype: Option<Seq<char>>,
) -> Seq<PageInfoV> {
    match b {
        BackendV::Mem { pages, .. } => infos_of(name, pages, ftype),
        BackendV::File { .. } => Seq::empty(),
        BackendV::Code => Seq::empty(),
    }
}

/// The listing entries of a page table, in order, filtered and stamped with
/// the owning store's name.
pub open spec fn infos_of(
    name: Seq<char>,
    pages: Seq<(Seq<char>, PageV)>,
    ftype: Option<Seq<char>>,
) -> Seq<PageInfoV>
    decreases pages.len(),
{
    if pages.len() == 0 {
        Seq::empty()
    } else {
        let head = if crate::filestore::spec_filter_keeps(ftype, pages[0].0) {
            seq![
                PageInfoV {
                    id: pages[0].0,
                    store: name,
                    title: pages[0].1.title,
                    url: "/"@ + pages[0].1.path,
                },
            ]
        } else {
            Seq::empty()
        };
        head + infos_of(name, pages.drop_first(), ftype)
    }
}

/// The full, unpaginated listing of the federation: each backend's entries
/// in registration order, restricted to one backend when a store filter is
/// given.
pub open spec fn sf_all_infos(
    sf: Seq<(Seq<char>, BackendV)>,
    ftype: Option<Seq<char>>,
    fstore: Option<Seq<char>>,
) -> Seq<PageInfoV>
    decreases sf.len(),
{
    if sf.len() == 0 {
        Seq::empty()
    } else {
        let head = match fstore {
            Some(wanted) => if sf[0].0 == wanted {
                backend_infos(sf[0].0, sf[0].1, ftype)
            } else {
                Seq::empty()
            },
            None => backend_infos(sf[0].0, sf[0].1, ftype),
        };
        head + sf_all_infos(sf.drop_first(), ftype, fstore)
    }
}

impl StoreFactory {
    /// Lists pages across all backends: the count is the total number of
    /// matching entries, and the results are the page of them selected by
    /// `offset` and `limit` over the whole coalesced listing. The filter's
    /// `store` key restricts the walk to one backend; its `type` key selects
    /// templates or pages.
    pub fn get_page_list(&self, offset: usize, limit: usize, filter: &StrDict) -> (r:
        ResultPageList)
        ensures
            ({
                let all = sf_all_infos(
                    self.view_v(),
                    crate::dict::entries_get(filter@, "type"@),
                    crate::dict::entries_get(filter@, "store"@),
                );
                &&& r.count == all.len()
                &&& r.results@.map_values(|p: PageInfo| p@) == all.subrange(
                    if offset as int <= all.len() {
                        offset as int
                    } else {
                        all.len() as int
                    },
                    if offset + limit <= all.len() {
                        offset + limit
                    } else {
                        all.len() as int
                    },
                )
            }),
            forall|i: int| 0 <= i < r.results@.len() ==> sf_lookup(
                self.view_v(),
                (#[trigger] r.results@[i])@.store,
            ) is Some,
    {
        let ghost ftype = crate::dict::entries_get(filter@, "type"@);
        let ghost fstore = crate::dict::entries_get(filter@, "store"@);
        let filter_type: Option<&String> = filter.get("type");
        let filter_store: Option<&String> = filter.get("store");
        let ghost sfv = self.view_v();
        let mut all: Vec<PageInfo> = Vec::new();
        let ns = self.stores.len();
        let mut s: usize = 0;
        proof {
            assert(sfv.skip(0) =~= sfv);
            assert(all@.map_values(|p: PageInfo| p@) =~= Seq::<PageInfoV>::empty());
        }
        while s < ns
            invariant
                s <= ns,
                ns == self.stores@.len(),
                sfv == self.view_v(),
                ftype == crate::dict::entries_get(filter@, "type"@),
                fstore == crate::dict::entries_get(filter@, "store"@),
                (match filter_type {
                    Some(t) => ftype == Some(t@),
                    None => ftype is None,
                }),
                (match filter_store {
                    Some(t) => fstore == Some(t@),
                    None => fstore is None,
                }),
                sf_all_infos(sfv, ftype, fstore) =~= all@.map_values(|p: PageInfo| p@)
                    + sf_all_infos(sfv.skip(s as int), ftype, fstore),
                forall|i: int| 0 <= i < all@.len() ==> sf_lookup(
                    sfv,
                    (#[trigger] all@[i])@.store,
                ) is Some,
            decreases ns - s,
        {
            proof {
                assert(sfv.skip(s as int)[0] == sfv[s as int]);
                assert(sfv.skip(s as int).drop_first() =~= sfv.skip(s + 1));
            }
            let wanted_here = match filter_store {
                Some(wanted) => crate::strutil::str_eq(self.stores[s].0.as_str(), wanted.as_str()),
                None => true,
            };
            if wanted_here {
                proof {
                    lemma_lookup_of_present(sfv, s as int);
                }
                match &self.stores[s].1 {
                    StoreBackend::Mem(m) => {
                        let ghost pages = m.pages_v();
                        let ghost name = self.stores@[s as int].0@;
                        let raw = m.list_pages();
                        let np = raw.len();
                        let mut rest = raw;
                        let mut p: usize = 0;
                        let ghost before_store = all@;
                        while p < np
                            invariant
                                s < ns,
                                ns == self.stores@.len(),
                                sfv == self.view_v(),
                                ftype == crate::dict::entries_get(filter@, "type"@),
                                (match filter_type {
                                    Some(t) => ftype == Some(t@),
                                    None => ftype is None,
                                }),
                                p <= np,
                                np == pages.len(),
                                rest@.len() == np - p,
                                forall|q: int| 0 <= q < rest@.len() ==> {
                                    &&& (#[trigger] rest@[q])@.id == pages[p + q].0
                                    &&& rest@[q]@.title == pages[p + q].1.title
                                    &&& rest@[q]@.url == "/"@ + pages[p + q].1.path
                                    &&& rest@[q]@.store.len() == 0
                                },
                                name == self.stores@[s as int].0@,
                                name == sfv[s as int].0,
                                sf_lookup(sfv, name) is Some,
                                all@.map_values(|pi: PageInfo| pi@) =~= before_store.map_values(
                                    |pi: PageInfo| pi@,
                                ) + infos_of(name, pages.take(p as int), ftype),
                                forall|i: int| 0 <= i < all@.len() ==> sf_lookup(
                                    sfv,
                                    (#[trigger] all@[i])@.store,
                                ) is Some,
                            decreases np - p,
                        {
                            proof {
                                assert(rest@[0]@.id == pages[p as int].0);
                            }
                            let info = rest.remove(0);
                            proof {
                                assert(pages.take(p + 1).drop_last() =~= pages.take(p as int));
                                lemma_infos_snoc(name, pages, p as int, ftype);
                            }
                            let keep = crate::filestore::FileStore::filter_keeps(
                                filter_type,
                                info.id.as_str(),
                            );
                            if keep {
                                let stamped = PageInfo {
                                    id: info.id,
                                    store: crate::strutil::string_clone(&self.stores[s].0),
                                    title: info.title,
                                    url: info.url,
                                };
                                let ghost prev = all@;
                                all.push(stamped);
                                proof {
                                    assert(all@.last()@ == (PageInfoV {
                                        id: pages[p as int].0,
                                        store: name,
                                        title: pages[p as int].1.title,
                                        url: "/"@ + pages[p as int].1.path,
                                    }));
                                    assert(all@.map_values(|pi: PageInfo| pi@) =~= prev.map_values(
                                        |pi: PageInfo| pi@,
                                    ).push(all@.last()@));
                                    assert(prev.map_values(|pi: PageInfo| pi@).push(all@.last()@)
                                        =~= prev.map_values(|pi: PageInfo| pi@) + seq![
                                        all@.last()@,
                                    ]);
                                    assert(before_store.map_values(|pi: PageInfo| pi@) + (infos_of(
                                        name,
                                        pages.take(p as int),
                                        ftype,
                                    ) + seq![all@.last()@]) =~= (before_store.map_values(
                                        |pi: PageInfo| pi@,
                                    ) + infos_of(name, pages.take(p as int), ftype)) + seq![
                                        all@.last()@,
                                    ]);
                                }
                            }
                            p = p + 1;
                        }
                        proof {
                            assert(pages.take(np as int) =~= pages);
                        }
                    },
                    StoreBackend::File(_) => {},
                    StoreBackend::Code(_) => {},
                }
            }
            proof {
                if !wanted_here {
                    assert(fstore is Some && sfv[s as int].0 != fstore->Some_0);
                }
            }
            s = s + 1;
        }
        proof {
            assert(sfv.skip(ns as int).len() == 0);
            assert(sf_all_infos(sfv.skip(ns as int), ftype, fstore) =~= Seq::<PageInfoV>::empty());
            assert(all@.map_values(|p: PageInfo| p@) + Seq::<PageInfoV>::empty()
                =~= all@.map_values(|p: PageInfo| p@));
        }
        let total = all.len();
        let start: usize = if offset <= total {
            offset
        } else {
            total
        };
        let end: usize = if limit <= total - start {
            start + limit
        } else {
            total
        };
        let mut results: Vec<PageInfo> = Vec::new();
        let mut j: usize = start;
        while j < end
            invariant
                start <= j <= end <= total,
                total == all@.len(),
                results@.len() == j - start,
                forall|q: int| 0 <= q < results@.len() ==> (#[trigger] results@[q])@ == all@[
                    start + q]@,
            decreases end - j,
        {
            results.push(all[j].duplicate());
            j = j + 1;
        }
        proof {
            assert(results@.map_values(|p: PageInfo| p@) =~= all@.map_values(
                |p: PageInfo| p@,
            ).subrange(start as int, end as int));
            assert forall|i: int| 0 <= i < results@.len() implies sf_lookup(
                sfv,
                (#[trigger] results@[i])@.store,
            ) is Some by {
                assert(results@[i]@ == all@[start + i]@);
            }
        }
        ResultPageList { count: total, results }
    }
}

/// A widget as the catalog lists it: its name qualified with the store's,
/// and the template and CSS bodies cleared — the listing is a catalog, not a
/// fetch.
pub open spec fn catalog_entry(store: Seq<char>, w: WidgetV) -> WidgetV {
    WidgetV { name: store + "/"@ + w.name, html: Seq::empty(), css: Seq::empty(), ..w }
}

/// The widgets one backend contributes to the catalog.
pub open spec fn backend_widget_list(b: BackendV) -> Seq<WidgetV> {
    match b {
        BackendV::Mem { widgets, .. } => widgets,
        BackendV::File { has_widgets, widgets, .. } => if has_widgets {
            widgets
        } else {
            Seq::empty()
        },
        BackendV::Code => seq![
            crate::codestore::static_context_widget_v(),
            crate::codestore::url_context_widget_v(),
        ],
    }
}

/// The whole catalog: each backend's widgets, qualified, in registration
/// order.
pub open spec fn sf_widget_catalog(sf: Seq<(Seq<char>, BackendV)>) -> Seq<WidgetV>
    decreases sf.len(),
{
    if sf.len() == 0 {
        Seq::empty()
    } else {
        backend_widget_list(sf[0].1).map_values(|w: WidgetV| catalog_entry(sf[0].0, w))
            + sf_widget_catalog(sf.drop_first())
    }
}

impl StoreFactory {
    /// The names of the registered stores, in order.
    pub fn get_store_list(&self) -> (r: Vec<String>)
        ensures
            r@.len() == self.view_v().len(),
            forall|i: int| 0 <= i < r@.len() ==> (#[trigger] r@[i])@ == self.view_v()[i].0,
    {
        let n = self.stores.len();
        let mut r: Vec<String> = Vec::new();
        let mut i: usize = 0;
        while i < n
            invariant
                i <= n,
                n == self.stores@.len(),
                r@.len() == i,
                forall|j: int| 0 <= j < i ==> (#[trigger] r@[j])@ == self.view_v()[j].0,
            decreases n - i,
        {
            r.push(crate::strutil::string_clone(&self.stores[i].0));
            i = i + 1;
        }
        r
    }

    /// Lists every store's widgets as a catalog: names qualified with the
    /// owning store, template and CSS bodies cleared.
    pub fn get_widget_list(&self) -> (r: WidgetResults)
        ensures
            r.count == sf_widget_catalog(self.view_v()).len(),
            r.results@.map_values(|w: Widget| w@) == sf_widget_catalog(self.view_v()),
    {
        let ghost sfv = self.view_v();
        let mut results: Vec<Widget> = Vec::new();
        let ns = self.stores.len();
        let mut s: usize = 0;
        proof {
            assert(sfv.skip(0) =~= sfv);
            assert(results@.map_values(|w: Widget| w@) =~= Seq::<WidgetV>::empty());
        }
        while s < ns
            invariant
                s <= ns,
                ns == self.stores@.len(),
                sfv == self.view_v(),
                sf_widget_catalog(sfv) =~= results@.map_values(|w: Widget| w@)
                    + sf_widget_catalog(sfv.skip(s as int)),
            decreases ns - s,
        {
            proof {
                assert(sfv.skip(s as int)[0] == sfv[s as int]);
                assert(sfv.skip(s as int).drop_first() =~= sfv.skip(s + 1));
            }
            let store_list = match &self.stores[s].1 {
                StoreBackend::Mem(m) => m.get_widget_list(),
                StoreBackend::File(f) => f.get_widget_list(),
                StoreBackend::Code(c) => c.get_widget_list(),
            };
            proof {
                assert(store_list.results@.map_values(|w: Widget| w@) =~= backend_widget_list(
                    sfv[s as int].1,
                ));
            }
            let ghost blist = backend_widget_list(sfv[s as int].1);
            let ghost name = sfv[s as int].0;
            let mut rest = store_list.results;
            let nw = rest.len();
            let mut w_i: usize = 0;
            let ghost before_store = results@;
            while w_i < nw
                invariant
                    s < ns,
                    ns == self.stores@.len(),
                    sfv == self.view_v(),
                    name == sfv[s as int].0,
                    name == self.stores@[s as int].0@,
                    w_i <= nw,
                    nw == blist.len(),
                    rest@.len() == nw - w_i,
                    forall|q: int| 0 <= q < rest@.len() ==> (#[trigger] rest@[q])@ == blist[w_i
                        + q],
                    results@.map_values(|w: Widget| w@) =~= before_store.map_values(
                        |w: Widget| w@,
                    ) + blist.take(w_i as int).map_values(|w: WidgetV| catalog_entry(name, w)),
                decreases nw - w_i,
            {
                proof {
                    assert(rest@[0]@ == blist[w_i as int]);
                }
                let w = rest.remove(0);
                let crate::pagetypes::Widget { name: wname, description, icon, editor, .. } = w;
                let qualified = crate::strutil::string_clone(&self.stores[s].0).concat(
                    "/",
                ).concat(wname.as_str());
                let entry = Widget {
                    name: qualified,
                    description,
                    icon,
                    html: String::new(),
                    css: String::new(),
                    editor,
                };
                let ghost prev = results@;
                results.push(entry);
                w_i = w_i + 1;
                proof {
                    assert(results@.last()@ =~~= catalog_entry(name, blist[w_i - 1]));
                    assert(results@.map_values(|w: Widget| w@) =~= prev.map_values(
                        |w: Widget| w@,
                    ).push(results@.last()@));
                    assert(blist.take(w_i as int).drop_last() =~= blist.take(w_i - 1));
                    assert(blist.take(w_i as int).last() == blist[w_i - 1]);
                    assert(blist.take(w_i as int).map_values(
                        |w: WidgetV| catalog_entry(name, w),
                    ) =~= blist.take(w_i - 1).map_values(|w: WidgetV| catalog_entry(name, w)).push(
                        catalog_entry(name, blist[w_i - 1]),
                    ));
                    assert(before_store.map_values(|w: Widget| w@) + blist.take(
                        w_i as int,
                    ).map_values(|w: WidgetV| catalog_entry(name, w)) =~= (before_store.map_values(
                        |w: Widget| w@,
                    ) + blist.take(w_i - 1).map_values(|w: WidgetV| catalog_entry(name, w))).push(
                        catalog_entry(name, blist[w_i - 1]),
                    ));
                }
            }
            proof {
                assert(blist.take(nw as int) =~= blist);
            }
            s = s + 1;
        }
        proof {
            assert(sfv.skip(ns as int).len() == 0);
            assert(sf_widget_catalog(sfv.skip(ns as int)) =~= Seq::<WidgetV>::empty());
            assert(results@.map_values(|w: Widget| w@) + Seq::<WidgetV>::empty()
                =~= results@.map_values(|w: Widget| w@));
        }
        let count = results.len();
        WidgetResults { count, results }
    }

    /// Saves a page definition: the path must name a single store, and only
    /// the in-process backend stores pages inside the library — file-backed
    /// pages live on disk, in the caller's hands.
    pub fn save_page_definition(&mut self, path: &str, page: &Page) -> (r: Result<(), StoreError>)
        ensures
            match r {
                Ok(_) => ({
                    &&& spec_split_at(path@, '/') is Some
                    &&& final(self).view_v().len() == old(self).view_v().len()
                    &&& exists|i: int|
                        {
                            &&& 0 <= i < old(self).view_v().len()
                            &&& (#[trigger] old(self).view_v()[i]).0 == spec_split_at(
                                path@,
                                '/',
                            )->Some_0.0
                            &&& old(self).view_v()[i].1 is Mem
                            &&& final(self).view_v() =~= old(self).view_v().update(
                                i,
                                (old(self).view_v()[i].0, final(self).view_v()[i].1),
                            )
                            &&& final(self).view_v()[i].1 matches BackendV::Mem {
                                widgets,
                                classes,
                                pages,
                            } && widgets == old(self).view_v()[i].1->Mem_widgets && classes == old(
                                self,
                            ).view_v()[i].1->Mem_classes && pages_lookup(
                                pages,
                                spec_split_at(path@, '/')->Some_0.1,
                            ) == Some(page@) && (forall|q: Seq<char>|
                                q != spec_split_at(path@, '/')->Some_0.1
                                    ==> #[trigger] pages_lookup(pages, q) == pages_lookup(
                                    old(self).view_v()[i].1->Mem_pages,
                                    q,
                                ))
                        }
                }),
                Err(e) => final(self).view_v() == old(self).view_v() && e@ == (match spec_split_at(
                    path@,
                    '/',
                ) {
                    None => StoreErrorV::InvalidPath { path: path@ },
                    Some((st, _)) => if crate::strutil::first_pos(st, '|') is Some {
                        StoreErrorV::InvalidPath { path: path@ }
                    } else {
                        match sf_lookup(old(self).view_v(), st) {
                            None => StoreErrorV::StoreNotFound { store: st },
                            Some(_) => StoreErrorV::Internal { message: "Not implemented"@ },
                        }
                    },
                }),
            },
    {
        let ghost sfv = self.view_v();
        let (store_name, sub) = match split_at_char(path, '/') {
            Some(p) => p,
            None => {
                return Err(StoreError::InvalidPath { path: String::from_str(path) });
            },
        };
        // A write names exactly one store: a pipe-separated fallback list is
        // rejected.
        if split_at_char(store_name.as_str(), '|').is_some() {
            return Err(StoreError::InvalidPath { path: String::from_str(path) });
        }
        let n = self.stores.len();
        let mut i: usize = 0;
        while i < n
            invariant
                i <= n,
                n == self.stores@.len(),
                self == old(self),
                sfv == self.view_v(),
                spec_split_at(path@, '/') == Some((store_name@, sub@)),
                crate::strutil::first_pos(store_name@, '|') is None,
                forall|j: int| 0 <= j < i ==> (#[trigger] sfv[j]).0 != store_name@,
            decreases n - i,
        {
            proof {
                assert(sfv[i as int].0 == self.stores@[i as int].0@);
            }
            if crate::strutil::str_eq(self.stores[i].0.as_str(), store_name.as_str()) {
                proof {
                    lemma_lookup_first_hit(sfv, store_name@, i as int);
                }
                let (nm, backend) = self.stores.remove(i);
                match backend {
                    StoreBackend::Mem(mut m) => {
                        m.save_page_definition(sub.as_str(), page);
                        self.stores.insert(i, (nm, StoreBackend::Mem(m)));
                        proof {
                            assert(self.view_v() =~= sfv.update(
                                i as int,
                                (sfv[i as int].0, self.view_v()[i as int].1),
                            ));
                        }
                        return Ok(());
                    },
                    other => {
                        proof {
                            assert(nm == old(self).stores@[i as int].0);
                            assert(other == old(self).stores@[i as int].1);
                        }
                        self.stores.insert(i, (nm, other));
                        proof {
                            assert forall|j: int|
                                0 <= j < self.stores@.len() implies #[trigger] self.stores@[j]
                                == old(self).stores@[j] by {
                                let a = self.stores@[j];
                                let b = old(self).stores@[j];
                                assert(a.0 == b.0 && a.1 == b.1);
                                assert(a == (a.0, a.1));
                                assert(b == (b.0, b.1));
                            }
                            assert(self.stores@ =~= old(self).stores@);
                            assert(self.view_v() =~= old(self).view_v());
                        }
                        return Err(
                            StoreError::Internal { message: String::from_str("Not implemented") },
                        );
                    },
                }
            }
            i = i + 1;
        }
        proof {
            lemma_lookup_all_missing(sfv, store_name@);
        }
        Err(StoreError::StoreNotFound { store: store_name })
    }

    /// Deletes a page definition, under the same routing rule as saving.
    pub fn delete_page_definition(&mut self, path: &str) -> (r: Result<bool, StoreError>)
        ensures
            match r {
                Ok(existed) => ({
                    &&& spec_split_at(path@, '/') is Some
                    &&& final(self).view_v().len() == old(self).view_v().len()
                    &&& exists|i: int|
                        {
                            &&& 0 <= i < old(self).view_v().len()
                            &&& (#[trigger] old(self).view_v()[i]).0 == spec_split_at(
                                path@,
                                '/',
                            )->Some_0.0
                            &&& old(self).view_v()[i].1 is Mem
                            &&& final(self).view_v() =~= old(self).view_v().update(
                                i,
                                (old(self).view_v()[i].0, final(self).view_v()[i].1),
                            )
                            &&& final(self).view_v()[i].1 matches BackendV::Mem {
                                widgets,
                                classes,
                                pages,
                            } && widgets == old(self).view_v()[i].1->Mem_widgets && classes == old(
                                self,
                            ).view_v()[i].1->Mem_classes && pages_lookup(
                                pages,
                                spec_split_at(path@, '/')->Some_0.1,
                            ) == None::<PageV> && existed == (pages_lookup(
                                old(self).view_v()[i].1->Mem_pages,
                                spec_split_at(path@, '/')->Some_0.1,
                            ) is Some) && (forall|q: Seq<char>|
                                q != spec_split_at(path@, '/')->Some_0.1
                                    ==> #[trigger] pages_lookup(pages, q) == pages_lookup(
                                    old(self).view_v()[i].1->Mem_pages,
                                    q,
                                ))
                        }
                }),
                Err(e) => final(self).view_v() == old(self).view_v() && e@ == (match spec_split_at(
                    path@,
                    '/',
                ) {
                    None => StoreErrorV::InvalidPath { path: path@ },
                    Some((st, _)) => if crate::strutil::first_pos(st, '|') is Some {
                        StoreErrorV::InvalidPath { path: path@ }
                    } else {
                        match sf_lookup(old(self).view_v(), st) {
                            None => StoreErrorV::StoreNotFound { store: st },
                            Some(_) => StoreErrorV::Internal { message: "Not implemented"@ },
                        }
                    },
                }),
            },
    {
        let ghost sfv = self.view_v();
        let (store_name, sub) = match split_at_char(path, '/') {
            Some(p) => p,
            None => {
                return Err(StoreError::InvalidPath { path: String::from_str(path) });
            },
        };
        // A write names exactly one store: a pipe-separated fallback list is
        // rejected.
        if split_at_char(store_name.as_str(), '|').is_some() {
            return Err(StoreError::InvalidPath { path: String::from_str(path) });
        }
        let n = self.stores.len();
        let mut i: usize = 0;
        while i < n
            invariant
                i <= n,
                n == self.stores@.len(),
                self == old(self),
                sfv == self.view_v(),
                spec_split_at(path@, '/') == Some((store_name@, sub@)),
                crate::strutil::first_pos(store_name@, '|') is None,
                forall|j: int| 0 <= j < i ==> (#[trigger] sfv[j]).0 != store_name@,
            decreases n - i,
        {
            proof {
                assert(sfv[i as int].0 == self.stores@[i as int].0@);
            }
            if crate::strutil::str_eq(self.stores[i].0.as_str(), store_name.as_str()) {
                proof {
                    lemma_lookup_first_hit(sfv, store_name@, i as int);
                }
                let (nm, backend) = self.stores.remove(i);
                match backend {
                    StoreBackend::Mem(mut m) => {
                        let existed = m.delete_page_definition(sub.as_str());
                        self.stores.insert(i, (nm, StoreBackend::Mem(m)));
                        proof {
                            assert(self.view_v() =~= sfv.update(
                                i as int,
                                (sfv[i as int].0, self.view_v()[i as int].1),
                            ));
                        }
                        return Ok(existed);
                    },
                    other => {
                        proof {
                            assert(nm == old(self).stores@[i as int].0);
                            assert(other == old(self).stores@[i as int].1);
                        }
                        self.stores.insert(i, (nm, other));
                        proof {
                            assert forall|j: int|
                                0 <= j < self.stores@.len() implies #[trigger] self.stores@[j]
                                == old(self).stores@[j] by {
                                let a = self.stores@[j];
                                let b = old(self).stores@[j];
                                assert(a.0 == b.0 && a.1 == b.1);
                                assert(a == (a.0, a.1));
                                assert(b == (b.0, b.1));
                            }
                            assert(self.stores@ =~= old(self).stores@);
                            assert(self.view_v() =~= old(self).view_v());
                        }
                        return Err(
                            StoreError::Internal { message: String::from_str("Not implemented") },
                        );
                    },
                }
            }
            i = i + 1;
        }
        proof {
            lemma_lookup_all_missing(sfv, store_name@);
        }
        Err(StoreError::StoreNotFound { store: store_name })
    }
}

/// If `name` first matches at `i`, the lookup finds that backend.
proof fn lemma_lookup_first_hit(sf: Seq<(Seq<char>, BackendV)>, name: Seq<char>, i: int)
    requires
        0 <= i < sf.len(),
        sf[i].0 == name,
        forall|j: int| 0 <= j < i ==> sf[j].0 != name,
    ensures
        sf_lookup(sf, name) == Some(sf[i].1),
    decreases i,
{
    if i > 0 {
        assert(sf.drop_first()[i - 1] == sf[i]);
        lemma_lookup_first_hit(sf.drop_first(), name, i - 1);
    }
}

/// Appending one slot changes a lookup only when nothing earlier matched.
proof fn lemma_lookup_snoc(sf: Seq<(Seq<char>, BackendV)>, e: (Seq<char>, BackendV), q: Seq<char>)
    ensures
        sf_lookup(sf.push(e), q) == match sf_lookup(sf, q) {
            Some(b) => Some(b),
            None => if e.0 == q {
                Some(e.1)
            } else {
                None
            },
        },
    decreases sf.len(),
{
    if sf.len() == 0 {
        assert(sf.push(e).drop_first() =~= Seq::<(Seq<char>, BackendV)>::empty());
    } else {
        assert(sf.push(e).drop_first() =~= sf.drop_first().push(e));
        assert(sf.push(e)[0] == sf[0]);
        lemma_lookup_snoc(sf.drop_first(), e, q);
    }
}

/// Replacing the slot at `i` leaves lookups of other names alone, as long as
/// the name at `i` is kept.
proof fn lemma_lookup_update_other(
    old_sf: Seq<(Seq<char>, BackendV)>,
    new_sf: Seq<(Seq<char>, BackendV)>,
    i: int,
    q: Seq<char>,
)
    requires
        0 <= i < old_sf.len(),
        new_sf.len() == old_sf.len(),
        new_sf[i].0 == old_sf[i].0,
        forall|j: int| 0 <= j < old_sf.len() && j != i ==> new_sf[j] == old_sf[j],
        q != old_sf[i].0,
    ensures
        sf_lookup(new_sf, q) == sf_lookup(old_sf, q),
    decreases old_sf.len(),
{
    if old_sf.len() > 0 {
        if i == 0 {
            assert(new_sf.drop_first() =~= old_sf.drop_first());
        } else {
            assert(new_sf[0] == old_sf[0]);
            assert(new_sf.drop_first()[i - 1].0 == old_sf.drop_first()[i - 1].0);
            assert(forall|j: int|
                0 <= j < old_sf.drop_first().len() && j != i - 1
                    ==> new_sf.drop_first()[j] == old_sf.drop_first()[j]);
            lemma_lookup_update_other(old_sf.drop_first(), new_sf.drop_first(), i - 1, q);
        }
    }
}

/// A name no slot holds looks up to nothing.
proof fn lemma_lookup_all_missing(sf: Seq<(Seq<char>, BackendV)>, name: Seq<char>)
    requires
        forall|j: int| 0 <= j < sf.len() ==> sf[j].0 != name,
    ensures
        sf_lookup(sf, name) == None::<BackendV>,
    decreases sf.len(),
{
    if sf.len() > 0 {
        lemma_lookup_all_missing(sf.drop_first(), name);
    }
}

/// A name that stands in the federation looks up to some backend.
proof fn lemma_lookup_of_present(sf: Seq<(Seq<char>, BackendV)>, i: int)
    requires
        0 <= i < sf.len(),
    ensures
        sf_lookup(sf, sf[i].0) is Some,
    decreases i,
{
    if sf.len() > 0 {
        if sf[0].0 == sf[i].0 {
        } else {
            assert(sf.drop_first()[i - 1] == sf[i]);
            lemma_lookup_of_present(sf.drop_first(), i - 1);
        }
    }
}

/// Scanning one more page extends the filtered listing by at most one entry.
proof fn lemma_infos_snoc(
    name: Seq<char>,
    pages: Seq<(Seq<char>, PageV)>,
    p: int,
    ftype: Option<Seq<char>>,
)
    requires
        0 <= p < pages.len(),
    ensures
        infos_of(name, pages.take(p + 1), ftype) == infos_of(name, pages.take(p), ftype) + if
            crate::filestore::spec_filter_keeps(ftype, pages[p].0) {
            seq![
                PageInfoV {
                    id: pages[p].0,
                    store: name,
                    title: pages[p].1.title,
                    url: "/"@ + pages[p].1.path,
                },
            ]
        } else {
            Seq::<PageInfoV>::empty()
        },
    decreases p,
{
    assert(pages.take(p + 1)[0] == pages[0]);
    if p == 0 {
        assert(pages.take(1).drop_first() =~= Seq::<(Seq<char>, PageV)>::empty());
        assert(pages.take(0) =~= Seq::<(Seq<char>, PageV)>::empty());
        if crate::filestore::spec_filter_keeps(ftype, pages[0].0) {
            assert(infos_of(name, pages.take(1), ftype) =~= infos_of(name, pages.take(0), ftype)
                + seq![
                PageInfoV {
                    id: pages[0].0,
                    store: name,
                    title: pages[0].1.title,
                    url: "/"@ + pages[0].1.path,
                },
            ]);
        } else {
            assert(infos_of(name, pages.take(1), ftype) =~= infos_of(
                name,
                pages.take(0),
                ftype,
            ));
        }
    } else {
        lemma_infos_snoc(name, pages.drop_first(), p - 1, ftype);
        assert(pages.take(p + 1).drop_first() =~= pages.drop_first().take(p));
        assert(pages.take(p).drop_first() =~= pages.drop_first().take(p - 1));
        assert(pages.take(p)[0] == pages[0]);
        assert(pages.drop_first()[p - 1] == pages[p]);
        if crate::filestore::spec_filter_keeps(ftype, pages.take(p + 1)[0].0) {
            assert(seq![
                PageInfoV {
                    id: pages[0].0,
                    store: name,
                    title: pages[0].1.title,
                    url: "/"@ + pages[0].1.path,
                },
            ] + (infos_of(name, pages.drop_first().take(p - 1), ftype) + if
                crate::filestore::spec_filter_keeps(ftype, pages[p].0) {
                seq![
                    PageInfoV {
                        id: pages[p].0,
                        store: name,
                        title: pages[p].1.title,
                        url: "/"@ + pages[p].1.path,
                    },
                ]
            } else {
                Seq::<PageInfoV>::empty()
            }) =~= (seq![
                PageInfoV {
                    id: pages[0].0,
                    store: name,
                    title: pages[0].1.title,
                    url: "/"@ + pages[0].1.path,
                },
            ] + infos_of(name, pages.drop_first().take(p - 1), ftype)) + if
                crate::filestore::spec_filter_keeps(ftype, pages[p].0) {
                seq![
                    PageInfoV {
                        id: pages[p].0,
                        store: name,
                        title: pages[p].1.title,
                        url: "/"@ + pages[p].1.path,
                    },
                ]
            } else {
                Seq::<PageInfoV>::empty()
            });
        } else {
            assert(infos_of(name, pages.take(p + 1), ftype) == infos_of(
                name,
                pages.drop_first().take(p),
                ftype,
            ));
        }
    }
}

/// The federation's fallback law: when the first named store yields nothing
/// for a read, the result is what the remaining stores yield. In particular,
/// for `"a|b/x"`, if store `a` has no value for `x`, the read returns store
/// `b`'s value for `x`.
pub proof fn lemma_fallback_skips_empty(
    sf: Seq<(Seq<char>, BackendV)>,
    names: Seq<Seq<char>>,
    sub: Seq<char>,
)
    requires
        names.len() > 0,
        match sf_lookup(sf, names[0]) {
            Some(b) => backend_page(b, sub) is None,
            None => true,
        },
    ensures
        sf_try_page(sf, names, sub) == sf_try_page(sf, names.drop_first(), sub),
{
}

} // verus!
