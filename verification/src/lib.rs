use vstd::prelude::*;

pub mod api;
pub mod connection;
pub mod log;
pub mod models;
pub mod service;
pub mod session;
pub mod text;

verus! {
} // verus!
