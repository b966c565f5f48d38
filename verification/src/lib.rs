//! Cross-checking observed BGP routes against the routing policies that
//! Internet Routing Registries declare in RPSL (RFC 2622).
//!
//! The policy graph is post-processed once into a [`query::QueryDump`];
//! each observation, a prefix with the AS path that advertised it, is then
//! walked by [`cmp::Compare::check`], which matches peerings and evaluates
//! filters into good, neutral or bad verdicts per adjacency, and
//! [`stats`] folds verdict streams into per-AS counters.

use vstd::prelude::*;

pub mod aut_num;
pub mod aut_sys;
pub mod cmp;
pub mod filter;
pub mod ip;
pub mod lex;
pub mod peering;
pub mod report;
pub mod set;
pub mod sort;
pub mod stats;
pub mod query;
pub mod vecmap;
pub mod wrapper;

verus! {

} // verus!
