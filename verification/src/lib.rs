//! Core logic of a receipt archive: asset identifiers, asset metadata,
//! storage layout decisions and metadata encodings.

pub mod acceptarium;
pub mod annex;
pub mod annex_laws;
pub mod assets;
pub mod collection;
pub mod config;
pub mod error;
pub mod fields;
pub mod filesystem;
pub mod ident;
pub mod json;
pub mod navigation;
pub mod paths;
pub mod process;
pub mod settings;
pub mod storage;
pub mod template;
pub mod text;
pub mod tracker;
pub mod transaction;

use vstd::prelude::*;

verus! {

} // verus!
