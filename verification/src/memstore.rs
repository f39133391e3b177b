use vstd::prelude::*;

use crate::pagetypes::{
    CssClass, CssClassResult, CssClassResults, CssClassV, Page, PageInfo, PageV, Widget,
    WidgetResults, WidgetV,
};

verus! {

/// The first widget with the given name.
pub open spec fn widgets_lookup(ws: Seq<WidgetV>, name: Seq<char>) -> Option<WidgetV>
    decreases ws.len(),
{
    if ws.len() == 0 {
        None
    } else if ws[0].name == name {
        Some(ws[0])
    } else {
        widgets_lookup(ws.drop_first(), name)
    }
}

/// The first CSS class with the given name.
pub open spec fn classes_lookup(cs: Seq<CssClassV>, name: Seq<char>) -> Option<CssClassV>
    decreases cs.len(),
{
    if cs.len() == 0 {
        None
    } else if cs[0].name == name {
        Some(cs[0])
    } else {
        classes_lookup(cs.drop_first(), name)
    }
}

/// The first page stored under the given path.
pub open spec fn pages_lookup(ps: Seq<(Seq<char>, PageV)>, path: Seq<char>) -> Option<PageV>
    decreases ps.len(),
{
    if ps.len() == 0 {
        None
    } else if ps[0].0 == path {
        Some(ps[0].1)
    } else {
        pages_lookup(ps.drop_first(), path)
    }
}

/// A fully in-process store backend: widgets, CSS classes and pages all live
/// in memory.
pub struct MemStore {
    pub name: String,
    pub widgets: Vec<Widget>,
    pub css_classes: Vec<CssClass>,
    pub pages: Vec<(String, Page)>,
}

impl MemStore {
    /// The abstract widget catalog.
    pub open spec fn widgets_v(&self) -> Seq<WidgetV> {
        self.widgets@.map_values(|w: Widget| w@)
    }

    /// The abstract CSS class catalog.
    pub open spec fn classes_v(&self) -> Seq<CssClassV> {
        self.css_classes@.map_values(|c: CssClass| c@)
    }

    /// The abstract page table.
    pub open spec fn pages_v(&self) -> Seq<(Seq<char>, PageV)> {
        Seq::new(
            self.pages@.len(),
            |i: int|
                if 0 <= i < self.pages@.len() {
                    (self.pages@[i].0@, self.pages@[i].1@)
                } else {
                    arbitrary()
                },
        )
    }

    pub fn new(name: &str) -> (r: MemStore)
        ensures
            r.name@ == name@,
            r.widgets_v() =~= Seq::<WidgetV>::empty(),
            r.classes_v() =~= Seq::<CssClassV>::empty(),
            r.pages_v() =~= Seq::<(Seq<char>, PageV)>::empty(),
    {
        MemStore {
            name: String::from_str(name),
            widgets: Vec::new(),
            css_classes: Vec::new(),
            pages: Vec::new(),
        }
    }

    /// Adds a widget to the catalog.
    pub fn add_widget(&mut self, w: Widget)
        ensures
            final(self).widgets_v() =~= old(self).widgets_v().push(w@),
            final(self).name == old(self).name,
            final(self).classes_v() == old(self).classes_v(),
            final(self).pages_v() == old(self).pages_v(),
    {
        self.widgets.push(w);
        proof {
            assert(self.widgets_v() =~= old(self).widgets_v().push(self.widgets@.last()@));
            assert(self.pages_v() =~= old(self).pages_v());
        }
    }

    /// Adds a CSS class to the catalog.
    pub fn add_css_class(&mut self, c: CssClass)
        ensures
            final(self).classes_v() =~= old(self).classes_v().push(c@),
            final(self).name == old(self).name,
            final(self).widgets_v() == old(self).widgets_v(),
            final(self).pages_v() == old(self).pages_v(),
    {
        self.css_classes.push(c);
        proof {
            assert(self.classes_v() =~= old(self).classes_v().push(self.css_classes@.last()@));
            assert(self.pages_v() =~= old(self).pages_v());
        }
    }

    /// Stores a page under the given path, appending it to the table; the
    /// earliest entry for a path wins on lookup, so this creates but does not
    /// overwrite.
    pub fn add_page(&mut self, path: String, page: Page)
        ensures
            final(self).pages_v() =~= old(self).pages_v().push((path@, page@)),
            final(self).name == old(self).name,
            final(self).widgets_v() == old(self).widgets_v(),
            final(self).classes_v() == old(self).classes_v(),
    {
        self.pages.push((path, page));
        proof {
            assert(self.pages_v() =~= old(self).pages_v().push(
                (self.pages@.last().0@, self.pages@.last().1@),
            ));
        }
    }

    /// The widget stored under `path`, if any.
    pub fn load_widget_definition(&self, path: &str) -> (r: Option<Widget>)
        ensures
            match r {
                Some(w) => widgets_lookup(self.widgets_v(), path@) == Some(w@),
                None => widgets_lookup(self.widgets_v(), path@) == None::<WidgetV>,
            },
    {
        let n = self.widgets.len();
        let mut i: usize = 0;
        proof {
            assert(self.widgets_v().skip(0) =~= self.widgets_v());
        }
        while i < n
            invariant
                i <= n,
                n == self.widgets@.len(),
                widgets_lookup(self.widgets_v().skip(i as int), path@) == widgets_lookup(
                    self.widgets_v(),
                    path@,
                ),
            decreases n - i,
        {
            proof {
                assert(self.widgets_v().skip(i as int)[0] == self.widgets_v()[i as int]);
                assert(self.widgets_v().skip(i as int).drop_first() =~= self.widgets_v().skip(
                    i + 1,
                ));
            }
            if crate::strutil::str_eq(self.widgets[i].name.as_str(), path) {
                return Some(self.widgets[i].duplicate());
            }
            i = i + 1;
        }
        proof {
            assert(self.widgets_v().skip(n as int).len() == 0);
        }
        None
    }

    /// The CSS class stored under `name`, if any.
    pub fn load_css_class_definition(&self, name: &str) -> (r: Option<CssClass>)
        ensures
            match r {
                Some(c) => classes_lookup(self.classes_v(), name@) == Some(c@),
                None => classes_lookup(self.classes_v(), name@) == None::<CssClassV>,
            },
    {
        let n = self.css_classes.len();
        let mut i: usize = 0;
        proof {
            assert(self.classes_v().skip(0) =~= self.classes_v());
        }
        while i < n
            invariant
                i <= n,
                n == self.css_classes@.len(),
                classes_lookup(self.classes_v().skip(i as int), name@) == classes_lookup(
                    self.classes_v(),
                    name@,
                ),
            decreases n - i,
        {
            proof {
                assert(self.classes_v().skip(i as int)[0] == self.classes_v()[i as int]);
                assert(self.classes_v().skip(i as int).drop_first() =~= self.classes_v().skip(
                    i + 1,
                ));
            }
            if crate::strutil::str_eq(self.css_classes[i].name.as_str(), name) {
                return Some(self.css_classes[i].duplicate());
            }
            i = i + 1;
        }
        proof {
            assert(self.classes_v().skip(n as int).len() == 0);
        }
        None
    }

    /// The page stored under `path`, if any.
    pub fn load_page_definition(&self, path: &str) -> (r: Option<Page>)
        ensures
            match r {
                Some(p) => pages_lookup(self.pages_v(), path@) == Some(p@),
                None => pages_lookup(self.pages_v(), path@) == None::<PageV>,
            },
    {
        let n = self.pages.len();
        let mut i: usize = 0;
        proof {
            assert(self.pages_v().skip(0) =~= self.pages_v());
        }
        while i < n
            invariant
                i <= n,
                n == self.pages@.len(),
                pages_lookup(self.pages_v().skip(i as int), path@) == pages_lookup(
                    self.pages_v(),
                    path@,
                ),
            decreases n - i,
        {
            proof {
                assert(self.pages_v().skip(i as int)[0] == self.pages_v()[i as int]);
                assert(self.pages_v().skip(i as int).drop_first() =~= self.pages_v().skip(i + 1));
            }
            if crate::strutil::str_eq(self.pages[i].0.as_str(), path) {
                return Some(self.pages[i].1.duplicate());
            }
            i = i + 1;
        }
        proof {
            assert(self.pages_v().skip(n as int).len() == 0);
        }
        None
    }

    /// Stores a page under `path`: replaces the first entry for that path in
    /// place, or appends a new one.
    pub fn save_page_definition(&mut self, path: &str, page: &Page)
        ensures
            pages_lookup(final(self).pages_v(), path@) == Some(page@),
            final(self).name == old(self).name,
            final(self).widgets_v() == old(self).widgets_v(),
            final(self).classes_v() == old(self).classes_v(),
            forall|q: Seq<char>| q != path@ ==> #[trigger] pages_lookup(
                final(self).pages_v(),
                q,
            ) == pages_lookup(old(self).pages_v(), q),
    {
        let copy = page.duplicate();
        let n = self.pages.len();
        let mut i: usize = 0;
        while i < n
            invariant
                i <= n,
                n == self.pages@.len(),
                self == old(self),
                copy@ == page@,
                forall|j: int| 0 <= j < i ==> self.pages_v()[j].0 != path@,
            decreases n - i,
        {
            if crate::strutil::str_eq(self.pages[i].0.as_str(), path) {
                self.pages[i] = (String::from_str(path), copy);
                proof {
                    assert(self.pages_v() =~= old(self).pages_v().update(
                        i as int,
                        (path@, page@),
                    ));
                    lemma_pages_update(
                        old(self).pages_v(),
                        self.pages_v(),
                        path@,
                        page@,
                        i as int,
                    );
                }
                return ;
            }
            i = i + 1;
        }
        self.pages.push((String::from_str(path), copy));
        proof {
            assert(self.pages_v() =~= old(self).pages_v().push((path@, page@)));
            lemma_pages_push(old(self).pages_v(), path@, page@);
        }
    }

    /// Deletes the pages stored under `path`; reports whether one existed.
    pub fn delete_page_definition(&mut self, path: &str) -> (existed: bool)
        ensures
            final(self).name == old(self).name,
            final(self).widgets_v() == old(self).widgets_v(),
            final(self).classes_v() == old(self).classes_v(),
            existed == (pages_lookup(old(self).pages_v(), path@) is Some),
            pages_lookup(final(self).pages_v(), path@) == None::<PageV>,
            forall|q: Seq<char>| q != path@ ==> #[trigger] pages_lookup(
                final(self).pages_v(),
                q,
            ) == pages_lookup(old(self).pages_v(), q),
    {
        let mut existed = false;
        let mut out: Vec<(String, Page)> = Vec::new();
        let n = self.pages.len();
        let mut i: usize = 0;
        let ghost orig = self.pages_v();
        while i < n
            invariant
                i <= n,
                n == self.pages@.len(),
                self == old(self),
                orig == self.pages_v(),
                pairs_v(out@) =~= pages_drop(orig.take(i as int), path@),
                existed == (pages_lookup(orig.take(i as int), path@) is Some),
            decreases n - i,
        {
            proof {
                assert(orig.take(i + 1).drop_last() =~= orig.take(i as int));
                assert(orig.take(i + 1).last() == orig[i as int]);
                lemma_pages_take_step(orig, path@, i as int);
            }
            if crate::strutil::str_eq(self.pages[i].0.as_str(), path) {
                existed = true;
            } else {
                let ghost before = out@;
                let k = crate::strutil::string_clone(&self.pages[i].0);
                let v = self.pages[i].1.duplicate();
                out.push((k, v));
                proof {
                    assert(pairs_v(out@) =~= pairs_v(before).push(orig[i as int]));
                }
            }
            i = i + 1;
        }
        proof {
            assert(orig.take(n as int) =~= orig);
        }
        self.pages = out;
        proof {
            assert(self.pages_v() =~= pages_drop(orig, path@));
            lemma_pages_drop_lookup(orig, path@, path@);
            assert forall|q: Seq<char>| q != path@ implies #[trigger] pages_lookup(
                self.pages_v(),
                q,
            ) == pages_lookup(orig, q) by {
                lemma_pages_drop_lookup(orig, path@, q);
            }
        }
        existed
    }

    /// The whole widget catalog, with its count.
    pub fn get_widget_list(&self) -> (r: WidgetResults)
        ensures
            r.count == self.widgets_v().len(),
            r.results@.map_values(|w: Widget| w@) =~= self.widgets_v(),
    {
        let n = self.widgets.len();
        let mut results: Vec<Widget> = Vec::new();
        let mut i: usize = 0;
        while i < n
            invariant
                i <= n,
                n == self.widgets@.len(),
                results@.len() == i,
                forall|j: int| 0 <= j < i ==> (#[trigger] results@[j])@ == self.widgets@[j]@,
            decreases n - i,
        {
            results.push(self.widgets[i].duplicate());
            i = i + 1;
        }
        proof {
            assert(results@.map_values(|w: Widget| w@) =~= self.widgets_v());
        }
        WidgetResults { count: n, results }
    }

    /// Summaries of every CSS class, qualified with the store name.
    pub fn load_css_classes(&self) -> (r: CssClassResults)
        ensures
            r.count == self.classes_v().len(),
            r.results@.len() == self.classes_v().len(),
            forall|i: int| 0 <= i < r.results@.len() ==> {
                &&& (#[trigger] r.results@[i]).name@ == self.name@ + "/"@
                    + self.classes_v()[i].name
                &&& r.results@[i].description@ == self.classes_v()[i].description
                &&& r.results@[i].tags@.map_values(|t: String| t@) == self.classes_v()[i].tags
            },
    {
        let n = self.css_classes.len();
        let mut results: Vec<CssClassResult> = Vec::new();
        let mut i: usize = 0;
        while i < n
            invariant
                i <= n,
                n == self.css_classes@.len(),
                results@.len() == i,
                forall|j: int| 0 <= j < i ==> {
                    &&& (#[trigger] results@[j]).name@ == self.name@ + "/"@
                        + self.classes_v()[j].name
                    &&& results@[j].description@ == self.classes_v()[j].description
                    &&& results@[j].tags@.map_values(|t: String| t@) == self.classes_v()[j].tags
                },
            decreases n - i,
        {
            let c = &self.css_classes[i];
            let qualified = crate::strutil::string_clone(&self.name).concat("/").concat(
                c.name.as_str(),
            );
            results.push(
                CssClassResult {
                    name: qualified,
                    description: crate::strutil::string_clone(&c.description),
                    tags: crate::strutil::clone_strings(&c.tags),
                },
            );
            i = i + 1;
        }
        CssClassResults { count: n, results }
    }

    /// A listing entry for every stored page, in order: its path as the id,
    /// the page title, the page path as the URL, and an empty store name for
    /// the federation to fill in.
    pub fn list_pages(&self) -> (r: Vec<PageInfo>)
        ensures
            r@.len() == self.pages_v().len(),
            forall|i: int| 0 <= i < r@.len() ==> {
                &&& (#[trigger] r@[i])@.id == self.pages_v()[i].0
                &&& r@[i]@.title == self.pages_v()[i].1.title
                &&& r@[i]@.url == "/"@ + self.pages_v()[i].1.path
                &&& r@[i]@.store.len() == 0
            },
    {
        let n = self.pages.len();
        let mut r: Vec<PageInfo> = Vec::new();
        let mut i: usize = 0;
        while i < n
            invariant
                i <= n,
                n == self.pages@.len(),
                r@.len() == i,
                forall|j: int| 0 <= j < i ==> {
                    &&& (#[trigger] r@[j])@.id == self.pages_v()[j].0
                    &&& r@[j]@.title == self.pages_v()[j].1.title
                    &&& r@[j]@.url == "/"@ + self.pages_v()[j].1.path
                    &&& r@[j]@.store.len() == 0
                },
            decreases n - i,
        {
            let info = PageInfo {
                id: crate::strutil::string_clone(&self.pages[i].0),
                store: String::new(),
                title: crate::strutil::string_clone(&self.pages[i].1.title),
                url: String::from_str("/").concat(self.pages[i].1.path.as_str()),
            };
            r.push(info);
            i = i + 1;
        }
        r
    }
}

/// The abstract value of a path-to-page vector.
pub open spec fn pairs_v(ps: Seq<(String, Page)>) -> Seq<(Seq<char>, PageV)> {
    Seq::new(
        ps.len(),
        |i: int|
            if 0 <= i < ps.len() {
                (ps[i].0@, ps[i].1@)
            } else {
                arbitrary()
            },
    )
}

/// The page table with every entry for `path` removed.
pub open spec fn pages_drop(ps: Seq<(Seq<char>, PageV)>, path: Seq<char>) -> Seq<
    (Seq<char>, PageV),
>
    decreases ps.len(),
{
    if ps.len() == 0 {
        Seq::empty()
    } else if ps.last().0 == path {
        pages_drop(ps.drop_last(), path)
    } else {
        pages_drop(ps.drop_last(), path).push(ps.last())
    }
}

/// One step of scanning the page table from the front.
proof fn lemma_pages_take_step(ps: Seq<(Seq<char>, PageV)>, path: Seq<char>, i: int)
    requires
        0 <= i < ps.len(),
    ensures
        ps[i].0 == path ==> pages_drop(ps.take(i + 1), path) == pages_drop(ps.take(i), path)
            && (pages_lookup(ps.take(i + 1), path) is Some),
        ps[i].0 != path ==> pages_drop(ps.take(i + 1), path) == pages_drop(
            ps.take(i),
            path,
        ).push(ps[i]) && pages_lookup(ps.take(i + 1), path) == pages_lookup(ps.take(i), path),
{
    assert(ps.take(i + 1).drop_last() =~= ps.take(i));
    assert(ps.take(i + 1).last() == ps[i]);
    assert(ps.take(i).push(ps[i]) =~= ps.take(i + 1));
    lemma_pages_lookup_snoc(ps.take(i), ps[i], path);
}

/// Appending one entry changes a lookup only when nothing earlier matched.
proof fn lemma_pages_lookup_snoc(ps: Seq<(Seq<char>, PageV)>, e: (Seq<char>, PageV), path: Seq<char>)
    ensures
        pages_lookup(ps.push(e), path) == match pages_lookup(ps, path) {
            Some(p) => Some(p),
            None => if e.0 == path {
                Some(e.1)
            } else {
                None
            },
        },
    decreases ps.len(),
{
    if ps.len() == 0 {
        assert(ps.push(e).drop_first() =~= Seq::<(Seq<char>, PageV)>::empty());
    } else {
        assert(ps.push(e).drop_first() =~= ps.drop_first().push(e));
        assert(ps.push(e)[0] == ps[0]);
        lemma_pages_lookup_snoc(ps.drop_first(), e, path);
    }
}

/// Replacing the first matching entry in place makes the lookup see the new
/// page and leaves other paths alone.
proof fn lemma_pages_update(
    old_ps: Seq<(Seq<char>, PageV)>,
    new_ps: Seq<(Seq<char>, PageV)>,
    path: Seq<char>,
    page: PageV,
    i: int,
)
    requires
        0 <= i < old_ps.len(),
        old_ps[i].0 == path,
        forall|j: int| 0 <= j < i ==> old_ps[j].0 != path,
        new_ps =~= old_ps.update(i, (path, page)),
    ensures
        pages_lookup(new_ps, path) == Some(page),
        forall|q: Seq<char>| q != path ==> #[trigger] pages_lookup(new_ps, q) == pages_lookup(
            old_ps,
            q,
        ),
    decreases i,
{
    if i == 0 {
        assert(new_ps[0] == (path, page));
        assert forall|q: Seq<char>| q != path implies #[trigger] pages_lookup(new_ps, q)
            == pages_lookup(old_ps, q) by {
            assert(new_ps.drop_first() =~= old_ps.drop_first());
        }
    } else {
        assert(old_ps.drop_first()[i - 1].0 == path);
        assert(new_ps.drop_first() =~= old_ps.drop_first().update(i - 1, (path, page)));
        lemma_pages_update(
            old_ps.drop_first(),
            new_ps.drop_first(),
            path,
            page,
            i - 1,
        );
        assert(new_ps[0] == old_ps[0]);
        assert forall|q: Seq<char>| q != path implies #[trigger] pages_lookup(new_ps, q)
            == pages_lookup(old_ps, q) by {
            assert(pages_lookup(new_ps.drop_first(), q) == pages_lookup(
                old_ps.drop_first(),
                q,
            ));
        }
    }
}

/// Appending a fresh path makes the lookup see the new page and leaves other
/// paths alone.
proof fn lemma_pages_push(ps: Seq<(Seq<char>, PageV)>, path: Seq<char>, page: PageV)
    requires
        forall|j: int| 0 <= j < ps.len() ==> ps[j].0 != path,
    ensures
        pages_lookup(ps.push((path, page)), path) == Some(page),
        forall|q: Seq<char>| q != path ==> #[trigger] pages_lookup(
            ps.push((path, page)),
            q,
        ) == pages_lookup(ps, q),
{
    lemma_pages_lookup_snoc(ps, (path, page), path);
    assert(pages_lookup(ps, path) is None) by {
        lemma_pages_missing(ps, path);
    }
    assert forall|q: Seq<char>| q != path implies #[trigger] pages_lookup(
        ps.push((path, page)),
        q,
    ) == pages_lookup(ps, q) by {
        lemma_pages_lookup_snoc(ps, (path, page), q);
    }
}

/// A path no entry holds looks up to nothing.
proof fn lemma_pages_missing(ps: Seq<(Seq<char>, PageV)>, path: Seq<char>)
    requires
        forall|j: int| 0 <= j < ps.len() ==> ps[j].0 != path,
    ensures
        pages_lookup(ps, path) == None::<PageV>,
    decreases ps.len(),
{
    if ps.len() > 0 {
        lemma_pages_missing(ps.drop_first(), path);
    }
}

/// Dropping a path removes it from lookups and leaves other paths alone.
proof fn lemma_pages_drop_lookup(ps: Seq<(Seq<char>, PageV)>, path: Seq<char>, q: Seq<char>)
    ensures
        pages_lookup(pages_drop(ps, path), q) == if q == path {
            None::<PageV>
        } else {
            pages_lookup(ps, q)
        },
    decreases ps.len(),
{
    if ps.len() > 0 {
        lemma_pages_drop_lookup(ps.drop_last(), path, q);
        if ps.last().0 == path {
            lemma_pages_lookup_snoc(ps.drop_last(), ps.last(), q);
            assert(ps.drop_last().push(ps.last()) =~= ps);
        } else {
            lemma_pages_lookup_snoc(pages_drop(ps.drop_last(), path), ps.last(), q);
            lemma_pages_lookup_snoc(ps.drop_last(), ps.last(), q);
            assert(ps.drop_last().push(ps.last()) =~= ps);
        }
    }
}

} // verus!
