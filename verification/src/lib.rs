//! Build-time route discovery and registration-code synthesis.
//!
//! The crate scans a multi-project source tree for functions carrying
//! request-method markers, infers each handler's mount path from its module
//! and directory structure, groups the declarations by exact module path in
//! one canonical order, and synthesizes the source text that registers every
//! handler with the routing framework — so no route table is maintained by
//! hand, and the output is byte-identical however the tree was walked.

pub mod ast;
pub mod convert;
pub mod emit;
pub mod extract;
pub mod gate;
pub mod group;
pub mod manifest;
pub mod pipeline;
pub mod rules;
pub mod keywords;
pub mod text;

use vstd::prelude::*;

verus! {

/// The nine request methods a handler marker can carry.
#[derive(Clone, Copy, Debug, PartialEq, Eq, Structural)]
pub enum HttpMethod {
    Get,
    Post,
    Put,
    Delete,
    Head,
    Connect,
    Options,
    Trace,
    Patch,
}

impl HttpMethod {
    /// Rank used to order methods deterministically.
    pub open spec fn rank(self) -> int {
        match self {
            HttpMethod::Get => 0,
            HttpMethod::Post => 1,
            HttpMethod::Put => 2,
            HttpMethod::Delete => 3,
            HttpMethod::Head => 4,
            HttpMethod::Connect => 5,
            HttpMethod::Options => 6,
            HttpMethod::Trace => 7,
            HttpMethod::Patch => 8,
        }
    }

    /// The rank as a value, for comparisons.
    pub fn rank_val(&self) -> (r: u8)
        ensures
            r as int == self.rank(),
    {
        match self {
            HttpMethod::Get => 0,
            HttpMethod::Post => 1,
            HttpMethod::Put => 2,
            HttpMethod::Delete => 3,
            HttpMethod::Head => 4,
            HttpMethod::Connect => 5,
            HttpMethod::Options => 6,
            HttpMethod::Trace => 7,
            HttpMethod::Patch => 8,
        }
    }
}

} // verus!
