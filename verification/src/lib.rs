use vstd::prelude::*;

pub mod api;
pub mod assertion;
pub mod codec;
pub mod exchange;
pub mod expression;
pub mod flatten;
pub mod http;
pub mod inference;
pub mod json;
pub mod json_eq;
pub mod model;
pub mod paths;
pub mod patterns;
pub mod proxy;
pub mod reconstruct;
pub mod replay;
pub mod resolver;
pub mod roundtrip;
pub mod run;
pub mod service;
pub mod storage;
pub mod suggest;
pub mod text;
pub mod urls;

verus! {

} // verus!
