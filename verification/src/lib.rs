use vstd::prelude::*;

pub mod text;
pub mod url;
pub mod config;
pub mod ids;
pub mod request;
pub mod events;

verus! {
} // verus!
