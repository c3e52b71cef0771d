use vstd::prelude::*;

pub mod app;
pub mod field;
pub mod files;
pub mod html;
pub mod number;
pub mod order;
pub mod preferences;
pub mod source;
pub mod text;
pub mod theme;
pub mod url;
pub mod words;

verus! {

} // verus!
