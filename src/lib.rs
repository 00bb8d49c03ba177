//! Discovers kill identifiers published per day by a history feed, resolves
//! each into a merged record from two detail sources, and stores each record
//! once.
//!
//! The I/O itself (HTTP, the document store, sleeping) is done by the caller;
//! this library holds the decisions: which days to scan, how a day's listing
//! is read, how two payloads merge, and what a pass does next after each
//! outcome.
use vstd::prelude::*;

pub mod calendar;
pub mod record;
pub mod discovery;
pub mod endpoints;
pub mod models;
pub mod pass;

verus! {

} // verus!
