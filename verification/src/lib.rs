//! Compose inheritable emote declarations and render their vector-graphic
//! variants through a small template language.
//!
//! A `SpeciesDecl` describes one inheritable collection of templates,
//! variants and assets; a `RenderingContext` wraps a declaration chain and
//! memoizes rendered variants.  Documents are plain element trees with
//! ordered attributes; selector, colour and stroke transforms are recursive
//! rewrites over those trees.

pub mod clean;
pub mod color;
pub mod context;
pub mod dec;
pub mod decl;
pub mod dict;
pub mod emote;
pub mod export;
pub mod laws;
pub mod parse;
pub mod select;
pub mod serialize;
pub mod snuggle;
pub mod template;
pub mod text;
pub mod transform;
pub mod xml;
pub mod xmlload;
pub mod xmlops;

pub use clean::clean;
pub use color::{set_fill, set_stroke};
pub use context::RenderingContext;
pub use dict::Dict;
pub use export::{combine_defs, resize, strip_marked, xml_to_str, ExportArgs, ExportError};
pub use parse::{parse_css, SpeciesDecl};
pub use select::query_selector;
pub use serialize::xml_to_string;
pub use snuggle::{bolden, generate_snuggle};
pub use template::{Template, TemplateError};
pub use transform::parse_transform;
pub use xml::{Elem, Node};
pub use xmlload::get_xml;
