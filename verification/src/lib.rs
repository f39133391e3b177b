//! A server-side page composition engine: declarative pages of widget
//! instances are loaded from pluggable stores, rendered through templates,
//! and assembled into HTML with aggregated CSS.
pub mod cache;
pub mod codestore;
pub mod config;
pub mod dict;
pub mod filestore;
pub mod httpresponse;
pub mod json;
pub mod memstore;
pub mod pagerender;
pub mod pagetypes;
pub mod renderer;
pub mod restart;
pub mod store;
pub mod strutil;
pub mod types;
