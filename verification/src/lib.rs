//! A verified core for reading and editing EPUB publications.
use vstd::prelude::*;

pub mod text;
pub mod uri;
pub mod keyed;
pub mod element;
pub mod consts;
pub mod metadata;
pub mod package;
pub mod entries;
pub mod groups;
pub mod marker;
pub mod metawrite;
pub mod overlay;
pub mod options;
pub mod spine;
pub mod toc;
pub mod manifest;
pub mod errors;
pub mod cli;
pub mod laws;
pub mod properties;
pub mod archive;
pub mod parse;
pub mod organize;
pub mod checks;
pub mod reading;
pub mod resource;
pub mod epub;

verus! {

} // verus!
