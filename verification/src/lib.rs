//! A modpack file manager: the data model of a modpack project, the rules
//! that decide what its commands do, and the text formats it reads.
use vstd::prelude::*;

pub mod download;
pub mod json;
pub mod mc;
pub mod modpack;
pub mod number;
pub mod pin;
pub mod profile;
pub mod push;
pub mod resource;
pub mod search;
pub mod text;

verus! {

/// The version of this tool.
pub const VERSION: &'static str = "0.1.0";

} // verus!
