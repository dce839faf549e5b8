use vstd::prelude::*;

pub mod completions;
pub mod json;
pub mod providers;
pub mod text;
pub mod tui;

verus! {

} // verus!
