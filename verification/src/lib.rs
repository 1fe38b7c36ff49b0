use vstd::prelude::*;

pub mod json;
pub mod text;
pub mod common;
pub mod schema;
pub mod doubaninfo;
pub mod tmdb;
pub mod input;
pub mod config;
pub mod session;

verus! {

} // verus!
