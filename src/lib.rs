//! A JSON query language: a selector string is parsed into groups of
//! tokens, which are walked against a JSON value.
pub mod display;
pub mod errors;
pub mod filter;
pub mod flatten;
pub mod grammar;
pub mod group;
pub mod json;
pub mod laws;
pub mod lexer;
pub mod order;
pub mod parser;
pub mod render;
pub mod selection;
pub mod semantics;
pub mod text;
pub mod tokens;
pub mod truncate;
pub mod walker;

pub use crate::display::{
    Display, display_array_selector, display_default_selector, display_index_selector,
    display_object_selector, display_range_selector,
};
pub use crate::errors::{KjqlParserError, display_content};
pub use crate::filter::apply_filter;
pub use crate::flatten::{flatten_array, flatten_json_array};
pub use crate::group::{Group, group_tokens, selectors_parser};
pub use crate::json::JsonValue;
pub use crate::parser::parse;
pub use crate::render::stringify_tokens;
pub use crate::selection::{
    array_walker, get_object_indexes, get_object_key, get_object_multi_key, get_object_range,
    apply_path, get_selection, get_selections, range_selector,
};
pub use crate::tokens::{Index, Lens, LensValue, Range, Token};
pub use crate::truncate::truncate_json;
pub use crate::walker::{group_walker, groups_walker, walker};
