//! Converts an HTML document into TOML text.
//!
//! The document is parsed into a tree of [`dom::Node`]s, each top-level
//! element is mapped to a [`value::Toml`] table of its attributes, its child
//! elements and its text, and the table of the whole document is written as
//! TOML.

pub mod convert;
pub mod dom;
pub mod error;
pub mod events;
pub mod mapper;
pub mod parse;
pub mod render;
pub mod text;
pub mod theorems;
pub mod toml_out;
pub mod value;

pub use crate::convert::html_to_toml;
pub use crate::dom::{Element, Node};
pub use crate::error::ConvertError;
pub use crate::mapper::{document_to_toml, element_to_toml};
pub use crate::parse::parse_document;
pub use crate::render::render;
pub use crate::value::{Table, Toml};
