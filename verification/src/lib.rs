use vstd::prelude::*;

pub mod text;
pub mod patch;
pub mod prompt;
pub mod args;
pub mod search;
pub mod json;
pub mod event;
pub mod provider;
pub mod ndjson;
pub mod run;
pub mod number;
pub mod schema;
pub mod shaping;
pub mod settings;
pub mod commands;
pub mod who;

verus! {

} // verus!
