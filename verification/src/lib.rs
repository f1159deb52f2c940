//! The decisions of a relay: what it answers to a handshake, which route and
//! which metric a request gets, and what a team catalog holds.
use vstd::prelude::*;

pub mod buckets;
pub mod catalog_fetch;
pub mod catalog_laws;
pub mod config;
pub mod decimal;
pub mod deflate;
pub mod deflate_laws;
pub mod event;
pub mod header;
pub mod measure;
pub mod measure_laws;
pub mod message;
pub mod metrics;
pub mod negotiation_laws;
pub mod offer;
pub mod probe;
pub mod ranking;
pub mod root;
pub mod root_laws;
pub mod router;
pub mod routes;
pub mod team;
pub mod team_catalog;
pub mod text;
pub mod text_laws;
pub mod upgrade;
pub mod upgrade_laws;
pub mod ws_deflate;

verus! {

} // verus!
