use vstd::prelude::*;

use crate::config::StoreConfig;
use crate::memstore::{classes_lookup, widgets_lookup};
use crate::pagetypes::{
    CssClass, CssClassResult, CssClassResults, CssClassV, Widget, WidgetResults, WidgetV,
};
use crate::strutil::{after_last, ends_with, starts_with};

verus! {

/// A store backed by files on disk. The widget and CSS class catalogs are
/// loaded once and then served from memory; page definitions live on disk,
/// so reading and writing them is the caller's input and output work.
pub struct FileStore {
    pub name: String,
    pub path: String,
    pub has_widgets: bool,
    pub has_css_classes: bool,
    pub has_pages: bool,
    pub widgets: Vec<Widget>,
    pub css_classes: Vec<CssClass>,
}

/// Whether the tag list holds the given tag.
pub open spec fn has_tag(tags: Seq<Seq<char>>, tag: Seq<char>) -> bool {
    exists|i: int| 0 <= i < tags.len() && tags[i] == tag
}

/// Whether `tags` holds the string `tag`.
fn tags_contain(tags: &Vec<String>, tag: &str) -> (r: bool)
    ensures
        r == has_tag(tags@.map_values(|t: String| t@), tag@),
{
    let n = tags.len();
    let mut i: usize = 0;
    while i < n
        invariant
            i <= n,
            n == tags@.len(),
            forall|j: int| 0 <= j < i ==> (#[trigger] tags@[j])@ != tag@,
        decreases n - i,
    {
        if crate::strutil::str_eq(tags[i].as_str(), tag) {
            proof {
                assert(tags@.map_values(|t: String| t@)[i as int] == tag@);
            }
            return true;
        }
        i = i + 1;
    }
    proof {
        let tv = tags@.map_values(|t: String| t@);
        assert forall|j: int| 0 <= j < tv.len() implies #[trigger] tv[j] != tag@ by {
            assert(tv[j] == tags@[j]@);
        }
    }
    false
}

impl FileStore {
    /// The abstract widget catalog.
    pub open spec fn widgets_v(&self) -> Seq<WidgetV> {
        self.widgets@.map_values(|w: Widget| w@)
    }

    /// The abstract CSS class catalog.
    pub open spec fn classes_v(&self) -> Seq<CssClassV> {
        self.css_classes@.map_values(|c: CssClass| c@)
    }

    /// Builds the store from its configuration, with empty catalogs: the
    /// caller reads the store's files and registers their content.
    pub fn new(config: &StoreConfig) -> (r: FileStore)
        ensures
            r.name@ == config.name@,
            r.path@ == config.path@,
            r.has_widgets == has_tag(config.tags@.map_values(|t: String| t@), "widgets"@),
            r.has_css_classes == has_tag(config.tags@.map_values(|t: String| t@), "css_classes"@),
            r.has_pages == has_tag(config.tags@.map_values(|t: String| t@), "pages"@),
            r.widgets_v() =~= Seq::<WidgetV>::empty(),
            r.classes_v() =~= Seq::<CssClassV>::empty(),
    {
        FileStore {
            name: crate::strutil::string_clone(&config.name),
            path: crate::strutil::string_clone(&config.path),
            has_widgets: tags_contain(&config.tags, "widgets"),
            has_css_classes: tags_contain(&config.tags, "css_classes"),
            has_pages: tags_contain(&config.tags, "pages"),
            widgets: Vec::new(),
            css_classes: Vec::new(),
        }
    }

    /// Registers widgets read from the store's configuration file, in order.
    /// Their `html` and `css` fields must already hold the template text, not
    /// file names.
    pub fn load_widgets(&mut self, widgets: Vec<Widget>)
        ensures
            final(self).widgets_v() =~= old(self).widgets_v() + widgets@.map_values(
                |w: Widget| w@,
            ),
            final(self).name == old(self).name,
            final(self).path == old(self).path,
            final(self).has_widgets == old(self).has_widgets,
            final(self).has_css_classes == old(self).has_css_classes,
            final(self).has_pages == old(self).has_pages,
            final(self).classes_v() == old(self).classes_v(),
    {
        let mut incoming = widgets;
        let ghost add = incoming@;
        let n_add = incoming.len();
        let mut k: usize = 0;
        proof {
            assert(add.skip(0) =~= add);
        }
        while incoming.len() > 0
            invariant
                n_add == add.len(),
                k <= n_add,
                incoming@ == add.skip(k as int),
                self.name == old(self).name,
                self.path == old(self).path,
                self.has_widgets == old(self).has_widgets,
                self.has_css_classes == old(self).has_css_classes,
                self.has_pages == old(self).has_pages,
                self.classes_v() == old(self).classes_v(),
                self.widgets_v() =~= old(self).widgets_v() + add.take(k as int).map_values(
                    |w: Widget| w@,
                ),
            decreases incoming@.len(),
        {
            let w = incoming.remove(0);
            proof {
                assert(add.skip(k as int)[0] == add[k as int]);
                assert(w == add[k as int]);
                assert(incoming@ =~= add.skip(k + 1));
            }
            let ghost prevw = self.widgets@;
            self.widgets.push(w);
            k = k + 1;
            proof {
                assert(self.widgets@ =~= prevw.push(add[k - 1]));
                assert(self.widgets_v() =~= prevw.map_values(|w: Widget| w@).push(add[k - 1]@));
                assert(add.take(k as int).drop_last() =~= add.take(k - 1));
                assert(add.take(k as int).last() == add[k - 1]);
                assert(add.take(k as int).map_values(|w: Widget| w@) =~= add.take(
                    k - 1,
                ).map_values(|w: Widget| w@).push(add[k - 1]@));
                assert(self.widgets_v() =~= old(self).widgets_v() + add.take(
                    k as int,
                ).map_values(|w: Widget| w@));
            }
        }
        proof {
            assert(add.take(add.len() as int) =~= add);
        }
    }

    /// Registers CSS classes read from the store's files, in order; ignored
    /// when the store does not carry the CSS class tag.
    pub fn load_css_classes_config(&mut self, classes: Vec<CssClass>)
        ensures
            old(self).has_css_classes ==> final(self).classes_v() =~= old(self).classes_v()
                + classes@.map_values(|c: CssClass| c@),
            !old(self).has_css_classes ==> *final(self) == *old(self),
            final(self).name == old(self).name,
            final(self).path == old(self).path,
            final(self).has_widgets == old(self).has_widgets,
            final(self).has_css_classes == old(self).has_css_classes,
            final(self).has_pages == old(self).has_pages,
            final(self).widgets_v() == old(self).widgets_v(),
    {
        if !self.has_css_classes {
            return ;
        }
        let mut incoming = classes;
        let ghost add = incoming@;
        let n_add = incoming.len();
        let mut k: usize = 0;
        proof {
            assert(add.skip(0) =~= add);
        }
        while incoming.len() > 0
            invariant
                n_add == add.len(),
                k <= n_add,
                incoming@ == add.skip(k as int),
                self.name == old(self).name,
                self.path == old(self).path,
                self.has_widgets == old(self).has_widgets,
                self.has_css_classes == old(self).has_css_classes,
                self.has_pages == old(self).has_pages,
                self.widgets_v() == old(self).widgets_v(),
                self.classes_v() =~= old(self).classes_v() + add.take(k as int).map_values(
                    |c: CssClass| c@,
                ),
            decreases incoming@.len(),
        {
            let c = incoming.remove(0);
            proof {
                assert(add.skip(k as int)[0] == add[k as int]);
                assert(c == add[k as int]);
                assert(incoming@ =~= add.skip(k + 1));
            }
            let ghost prevc = self.css_classes@;
            self.css_classes.push(c);
            k = k + 1;
            proof {
                assert(self.css_classes@ =~= prevc.push(add[k - 1]));
                assert(self.classes_v() =~= prevc.map_values(|c: CssClass| c@).push(
                    add[k - 1]@,
                ));
                assert(add.take(k as int).drop_last() =~= add.take(k - 1));
                assert(add.take(k as int).last() == add[k - 1]);
                assert(add.take(k as int).map_values(|c: CssClass| c@) =~= add.take(
                    k - 1,
                ).map_values(|c: CssClass| c@).push(add[k - 1]@));
                assert(self.classes_v() =~= old(self).classes_v() + add.take(
                    k as int,
                ).map_values(|c: CssClass| c@));
            }
        }
        proof {
            assert(add.take(add.len() as int) =~= add);
        }
    }

    /// The widget stored under `path`, when this store carries widgets.
    pub fn load_widget_definition(&self, path: &str) -> (r: Option<Widget>)
        ensures
            !self.has_widgets ==> r is None,
            self.has_widgets ==> match r {
                Some(w) => widgets_lookup(self.widgets_v(), path@) == Some(w@),
                None => widgets_lookup(self.widgets_v(), path@) == None::<WidgetV>,
            },
    {
        if !self.has_widgets {
            return None;
        }
        let n = self.widgets.len();
        let mut i: usize = 0;
        proof {
            assert(self.widgets_v().skip(0) =~= self.widgets_v());
        }
        while i < n
            invariant
                self.has_widgets,
                i <= n,
                n == self.widgets@.len(),
                widgets_lookup(self.widgets_v().skip(i as int), path@) == widgets_lookup(
                    self.widgets_v(),
                    path@,
                ),
            decreases n - i,
        {
            proof {
                assert(self.widgets_v().skip(i as int)[0] == self.widgets_v()[i as int]);
                assert(self.widgets_v().skip(i as int).drop_first() =~= self.widgets_v().skip(
                    i + 1,
                ));
            }
            if crate::strutil::str_eq(self.widgets[i].name.as_str(), path) {
                return Some(self.widgets[i].duplicate());
            }
            i = i + 1;
        }
        proof {
            assert(self.widgets_v().skip(n as int).len() == 0);
        }
        None
    }

    /// The CSS class stored under `name`, when this store carries classes.
    pub fn load_css_class_definition(&self, name: &str) -> (r: Option<CssClass>)
        ensures
            !self.has_css_classes ==> r is None,
            self.has_css_classes ==> match r {
                Some(c) => classes_lookup(self.classes_v(), name@) == Some(c@),
                None => classes_lookup(self.classes_v(), name@) == None::<CssClassV>,
            },
    {
        if !self.has_css_classes {
            return None;
        }
        let n = self.css_classes.len();
        let mut i: usize = 0;
        proof {
            assert(self.classes_v().skip(0) =~= self.classes_v());
        }
        while i < n
            invariant
                self.has_css_classes,
                i <= n,
                n == self.css_classes@.len(),
                classes_lookup(self.classes_v().skip(i as int), name@) == classes_lookup(
                    self.classes_v(),
                    name@,
                ),
            decreases n - i,
        {
            proof {
                assert(self.classes_v().skip(i as int)[0] == self.classes_v()[i as int]);
                assert(self.classes_v().skip(i as int).drop_first() =~= self.classes_v().skip(
                    i + 1,
                ));
            }
            if crate::strutil::str_eq(self.css_classes[i].name.as_str(), name) {
                return Some(self.css_classes[i].duplicate());
            }
            i = i + 1;
        }
        proof {
            assert(self.classes_v().skip(n as int).len() == 0);
        }
        None
    }

    /// The whole widget catalog, when this store carries widgets.
    pub fn get_widget_list(&self) -> (r: WidgetResults)
        ensures
            !self.has_widgets ==> r.count == 0 && r.results@.len() == 0,
            self.has_widgets ==> r.count == self.widgets_v().len() && r.results@.map_values(
                |w: Widget| w@,
            ) =~= self.widgets_v(),
    {
        if !self.has_widgets {
            return WidgetResults { count: 0, results: Vec::new() };
        }
        let n = self.widgets.len();
        let mut results: Vec<Widget> = Vec::new();
        let mut i: usize = 0;
        while i < n
            invariant
                i <= n,
                n == self.widgets@.len(),
                results@.len() == i,
                forall|j: int| 0 <= j < i ==> (#[trigger] results@[j])@ == self.widgets@[j]@,
            decreases n - i,
        {
            results.push(self.widgets[i].duplicate());
            i = i + 1;
        }
        proof {
            assert(results@.map_values(|w: Widget| w@) =~= self.widgets_v());
        }
        WidgetResults { count: n, results }
    }

    /// Summaries of every CSS class, qualified with the store name.
    pub fn load_css_classes(&self) -> (r: CssClassResults)
        ensures
            !self.has_css_classes ==> r.count == 0 && r.results@.len() == 0,
            self.has_css_classes ==> {
                &&& r.count == self.classes_v().len()
                &&& r.results@.len() == self.classes_v().len()
                &&& forall|i: int| 0 <= i < r.results@.len() ==> {
                    &&& (#[trigger] r.results@[i]).name@ == self.name@ + "/"@
                        + self.classes_v()[i].name
                    &&& r.results@[i].description@ == self.classes_v()[i].description
                    &&& r.results@[i].tags@.map_values(|t: String| t@) == self.classes_v()[i].tags
                }
            },
    {
        if !self.has_css_classes {
            return CssClassResults { count: 0, results: Vec::new() };
        }
        let n = self.css_classes.len();
        let mut results: Vec<CssClassResult> = Vec::new();
        let mut i: usize = 0;
        while i < n
            invariant
                i <= n,
                n == self.css_classes@.len(),
                results@.len() == i,
                forall|j: int| 0 <= j < i ==> {
                    &&& (#[trigger] results@[j]).name@ == self.name@ + "/"@
                        + self.classes_v()[j].name
                    &&& results@[j].description@ == self.classes_v()[j].description
                    &&& results@[j].tags@.map_values(|t: String| t@) == self.classes_v()[j].tags
                },
            decreases n - i,
        {
            let c = &self.css_classes[i];
            let qualified = crate::strutil::string_clone(&self.name).concat("/").concat(
                c.name.as_str(),
            );
            let entry = CssClassResult {
                name: qualified,
                description: crate::strutil::string_clone(&c.description),
                tags: crate::strutil::clone_strings(&c.tags),
            };
            results.push(entry);
            i = i + 1;
        }
        CssClassResults { count: n, results }
    }

    /// The page identifier a file under the store maps to: the file path
    /// with the store root removed from the front and the data file suffix
    /// removed from the end. Files elsewhere or of another kind have none.
    pub fn page_id_of(&self, file_path: &str) -> (r: Option<String>)
        ensures
            match r {
                Some(id) => starts_with(file_path@, self.path@) && ends_with(
                    file_path@,
                    ".yaml"@,
                ) && file_path@.len() - self.path@.len() >= ".yaml"@.len() && id@
                    == file_path@.subrange(
                    self.path@.len() as int,
                    file_path@.len() - ".yaml"@.len(),
                ),
                None => !(starts_with(file_path@, self.path@) && ends_with(file_path@, ".yaml"@)
                    && file_path@.len() - self.path@.len() >= ".yaml"@.len()),
            },
    {
        proof {
            reveal_strlit(".yaml");
        }
        let flen = file_path.unicode_len();
        let rootlen = self.path.unicode_len();
        if !crate::strutil::starts_with_str(file_path, self.path.as_str()) {
            return None;
        }
        if !crate::strutil::ends_with_str(file_path, ".yaml") {
            return None;
        }
        if flen - rootlen < 5 {
            return None;
        }
        let id = file_path.substring_char(rootlen, flen - 5);
        Some(String::from_str(id))
    }

    /// Whether a page listing keeps this entry, under the template
    /// convention: a file whose name starts with an underscore is a template,
    /// any other is a page.
    pub fn filter_keeps(filter_type: Option<&String>, page_id: &str) -> (r: bool)
        ensures
            r == spec_filter_keeps(
                match filter_type {
                    Some(t) => Some(t@),
                    None => None,
                },
                page_id@,
            ),
    {
        let filename = crate::strutil::after_last_char(page_id, '/');
        proof {
            reveal_strlit("_");
            reveal_strlit("template");
            reveal_strlit("page");
        }
        let underscored = crate::strutil::starts_with_str(filename.as_str(), "_");
        match filter_type {
            None => true,
            Some(t) => {
                if crate::strutil::str_eq(t.as_str(), "template") {
                    underscored
                } else if crate::strutil::str_eq(t.as_str(), "page") {
                    !underscored
                } else {
                    true
                }
            },
        }
    }
}

/// Whether a page listing keeps an entry under the given filter: `template`
/// keeps only files whose name starts with an underscore, `page` keeps only
/// the others, anything else keeps everything.
pub open spec fn spec_filter_keeps(filter_type: Option<Seq<char>>, page_id: Seq<char>) -> bool {
    let underscored = starts_with(after_last(page_id, '/'), "_"@);
    match filter_type {
        None => true,
        Some(t) => if t == "template"@ {
            underscored
        } else if t == "page"@ {
            !underscored
        } else {
            true
        },
    }
}

} // verus!
