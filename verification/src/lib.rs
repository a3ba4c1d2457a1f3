//! Product-lookup core: a catalog-response parser, a time-bounded product
//! cache, a lookup service that decides between cache and remote fetch, and a
//! cart with merge-by-identifier semantics.
#![verifier::loop_isolation(false)]

pub mod cache;
pub mod cart;
pub mod json;
pub mod parse;
pub mod record;
pub mod service;
pub mod text;
