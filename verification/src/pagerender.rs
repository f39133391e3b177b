use vstd::prelude::*;

use crate::dict::StrDict;
use crate::pagetypes::{MetaDefinition, Page};
use crate::types::RenderError;

verus! {

/// An early shape of a rendered page that owns its definition; kept for
/// callers that only need a body placeholder around a page value.
pub struct RenderedPage {
    pub page: Page,
    pub body: String,
    pub headers: StrDict,
    pub response_code: u16,
    pub meta: Vec<MetaDefinition>,
    pub css_variables: StrDict,
    pub errors: Vec<RenderError>,
}

impl RenderedPage {
    pub fn new(page: Page) -> (r: RenderedPage)
        ensures
            r.page@ == page@,
            r.body@.len() == 0,
            r.headers@.len() == 0,
            r.response_code == 200,
            r.meta@.len() == 0,
            r.css_variables@.len() == 0,
            r.errors@.len() == 0,
    {
        RenderedPage {
            page,
            body: String::new(),
            headers: StrDict::new(),
            response_code: 200,
            meta: Vec::new(),
            css_variables: StrDict::new(),
            errors: Vec::new(),
        }
    }

    /// Fills the placeholder body.
    pub fn render(&mut self) -> (r: Result<(), RenderError>)
        ensures
            r is Ok,
            final(self).body@ == "WIP"@,
            final(self).page == old(self).page,
            final(self).headers == old(self).headers,
            final(self).response_code == old(self).response_code,
            final(self).meta == old(self).meta,
            final(self).css_variables == old(self).css_variables,
            final(self).errors@.len() == old(self).errors@.len(),
    {
        self.body = String::from_str("WIP");
        Ok(())
    }

    pub fn body(&self) -> (r: &str)
        ensures
            r@ == self.body@,
    {
        self.body.as_str()
    }

    pub fn headers(&self) -> (r: &StrDict)
        ensures
            r@ == self.headers@,
    {
        &self.headers
    }
}

} // verus!
