use vstd::prelude::*;

pub mod api;
pub mod components;
pub mod coordinator;
pub mod filter;
pub mod history;
pub mod inspector;
pub mod page;
pub mod partition;
pub mod request;
pub mod text;

verus! {

} // verus!
