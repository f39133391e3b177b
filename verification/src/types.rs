use vstd::prelude::*;

verus! {

/// The failures the storage layer reports to its callers.
#[derive(Debug)]
pub enum StoreError {
    PageNotFound { path: String },
    StoreNotFound { store: String },
    InvalidPath { path: String },
    Internal { message: String },
}

impl StoreError {
    /// The stable machine-readable code of this error.
    pub fn error_code(&self) -> (r: &'static str)
        ensures
            r@ == match self {
                StoreError::PageNotFound { .. } => "PAGE_NOT_FOUND"@,
                StoreError::StoreNotFound { .. } => "STORE_NOT_FOUND"@,
                StoreError::InvalidPath { .. } => "INVALID_PATH"@,
                StoreError::Internal { .. } => "INTERNAL_ERROR"@,
            },
    {
        match self {
            StoreError::PageNotFound { .. } => "PAGE_NOT_FOUND",
            StoreError::StoreNotFound { .. } => "STORE_NOT_FOUND",
            StoreError::InvalidPath { .. } => "INVALID_PATH",
            StoreError::Internal { .. } => "INTERNAL_ERROR",
        }
    }

    /// The HTTP status this error maps to.
    pub fn http_status(&self) -> (r: u16)
        ensures
            r == match self {
                StoreError::PageNotFound { .. } => 404u16,
                StoreError::StoreNotFound { .. } => 404u16,
                StoreError::InvalidPath { .. } => 400u16,
                StoreError::Internal { .. } => 500u16,
            },
    {
        match self {
            StoreError::PageNotFound { .. } => 404,
            StoreError::StoreNotFound { .. } => 404,
            StoreError::InvalidPath { .. } => 400,
            StoreError::Internal { .. } => 500,
        }
    }

    /// A human-readable description of the error.
    pub fn message(&self) -> (r: String)
        ensures
            r@ == spec_store_error_message(self),
    {
        match self {
            StoreError::PageNotFound { path } => {
                let r = String::from_str("Page '").concat(path.as_str()).concat("' not found");
                r
            },
            StoreError::StoreNotFound { store } => {
                let r = String::from_str("Store '").concat(store.as_str()).concat("' not found");
                r
            },
            StoreError::InvalidPath { path } => {
                let r = String::from_str("Invalid path format: ").concat(path.as_str());
                r
            },
            StoreError::Internal { message } => crate::strutil::string_clone(message),
        }
    }
}

/// The text `message` returns for each error.
pub open spec fn spec_store_error_message(e: &StoreError) -> Seq<char> {
    match e {
        StoreError::PageNotFound { path } => "Page '"@ + path@ + "' not found"@,
        StoreError::StoreNotFound { store } => "Store '"@ + store@ + "' not found"@,
        StoreError::InvalidPath { path } => "Invalid path format: "@ + path@,
        StoreError::Internal { message } => message@,
    }
}

#[verifier::ext_equal]
pub enum StoreErrorV {
    PageNotFound { path: Seq<char> },
    StoreNotFound { store: Seq<char> },
    InvalidPath { path: Seq<char> },
    Internal { message: Seq<char> },
}

impl View for StoreError {
    type V = StoreErrorV;

    open spec fn view(&self) -> StoreErrorV {
        match self {
            StoreError::PageNotFound { path } => StoreErrorV::PageNotFound { path: path@ },
            StoreError::StoreNotFound { store } => StoreErrorV::StoreNotFound { store: store@ },
            StoreError::InvalidPath { path } => StoreErrorV::InvalidPath { path: path@ },
            StoreError::Internal { message } => StoreErrorV::Internal { message: message@ },
        }
    }
}

/// The error envelope the HTTP surface sends to clients.
pub struct ErrorResponse {
    pub details: String,
    pub code: String,
    pub status: u16,
    pub path: Option<String>,
    pub store: Option<String>,
}

impl ErrorResponse {
    /// Builds the envelope for a storage error: its message, stable code,
    /// HTTP status, and the path or store it concerns.
    pub fn from_store_error(error: &StoreError) -> (r: ErrorResponse)
        ensures
            r.details@ == spec_store_error_message(error),
            r.code@ == match error {
                StoreError::PageNotFound { .. } => "PAGE_NOT_FOUND"@,
                StoreError::StoreNotFound { .. } => "STORE_NOT_FOUND"@,
                StoreError::InvalidPath { .. } => "INVALID_PATH"@,
                StoreError::Internal { .. } => "INTERNAL_ERROR"@,
            },
            r.status == match error {
                StoreError::PageNotFound { .. } => 404u16,
                StoreError::StoreNotFound { .. } => 404u16,
                StoreError::InvalidPath { .. } => 400u16,
                StoreError::Internal { .. } => 500u16,
            },
            match error {
                StoreError::PageNotFound { path } => r.path matches Some(p) && p@ == path@
                    && r.store is None,
                StoreError::StoreNotFound { store } => r.store matches Some(s) && s@ == store@
                    && r.path is None,
                StoreError::InvalidPath { path } => r.path matches Some(p) && p@ == path@
                    && r.store is None,
                StoreError::Internal { .. } => r.path is None && r.store is None,
            },
    {
        let details = error.message();
        let code = String::from_str(error.error_code());
        let status = error.http_status();
        match error {
            StoreError::PageNotFound { path } => ErrorResponse {
                details,
                code,
                status,
                path: Some(crate::strutil::string_clone(path)),
                store: None,
            },
            StoreError::StoreNotFound { store } => ErrorResponse {
                details,
                code,
                status,
                path: None,
                store: Some(crate::strutil::string_clone(store)),
            },
            StoreError::InvalidPath { path } => ErrorResponse {
                details,
                code,
                status,
                path: Some(crate::strutil::string_clone(path)),
                store: None,
            },
            StoreError::Internal { .. } => ErrorResponse {
                details,
                code,
                status,
                path: None,
                store: None,
            },
        }
    }
}

/// A one-line detail message, as the HTTP surface returns it.
pub struct Details {
    pub details: String,
}

impl Details {
    pub fn new(details: String) -> (r: Details)
        ensures
            r.details@ == details@,
    {
        Details { details }
    }
}

/// The failures a rendering pass can hit.
#[derive(Debug)]
pub enum RenderError {
    WidgetNotFound { widget: String },
    CssClassNotFound { class: String },
    DataError { message: String },
    TemplateError { message: String },
}

#[verifier::ext_equal]
pub enum RenderErrorV {
    WidgetNotFound { widget: Seq<char> },
    CssClassNotFound { class: Seq<char> },
    DataError { message: Seq<char> },
    TemplateError { message: Seq<char> },
}

impl View for RenderError {
    type V = RenderErrorV;

    open spec fn view(&self) -> RenderErrorV {
        match self {
            RenderError::WidgetNotFound { widget } => RenderErrorV::WidgetNotFound {
                widget: widget@,
            },
            RenderError::CssClassNotFound { class } => RenderErrorV::CssClassNotFound {
                class: class@,
            },
            RenderError::DataError { message } => RenderErrorV::DataError { message: message@ },
            RenderError::TemplateError { message } => RenderErrorV::TemplateError {
                message: message@,
            },
        }
    }
}

/// The text `message` returns for each rendering error.
pub open spec fn spec_render_error_message(e: RenderErrorV) -> Seq<char> {
    match e {
        RenderErrorV::WidgetNotFound { widget } => "Widget not found: "@ + widget,
        RenderErrorV::CssClassNotFound { class } => "CSS class not found: "@ + class,
        RenderErrorV::DataError { message } => message,
        RenderErrorV::TemplateError { message } => message,
    }
}

impl RenderError {
    /// A human-readable description of the error.
    pub fn message(&self) -> (r: String)
        ensures
            r@ == spec_render_error_message(self@),
    {
        match self {
            RenderError::WidgetNotFound { widget } => String::from_str(
                "Widget not found: ",
            ).concat(widget.as_str()),
            RenderError::CssClassNotFound { class } => String::from_str(
                "CSS class not found: ",
            ).concat(class.as_str()),
            RenderError::DataError { message } => crate::strutil::string_clone(message),
            RenderError::TemplateError { message } => crate::strutil::string_clone(message),
        }
    }

    /// A copy with the same fields.
    pub fn duplicate(&self) -> (r: RenderError)
        ensures
            r@ == self@,
    {
        match self {
            RenderError::WidgetNotFound { widget } => RenderError::WidgetNotFound {
                widget: crate::strutil::string_clone(widget),
            },
            RenderError::CssClassNotFound { class } => RenderError::CssClassNotFound {
                class: crate::strutil::string_clone(class),
            },
            RenderError::DataError { message } => RenderError::DataError {
                message: crate::strutil::string_clone(message),
            },
            RenderError::TemplateError { message } => RenderError::TemplateError {
                message: crate::strutil::string_clone(message),
            },
        }
    }
}

/// A generic counted result list.
pub struct ResultI<T> {
    pub count: usize,
    pub results: Vec<T>,
}

} // verus!
