//! Turns a source package's optional-feature graph into downstream
//! package-control metadata, and keeps a human-maintained change
//! history in step with each regeneration run.
//!
//! The two load-bearing pieces are the provides-reduction resolver
//! ([`resolve`]), which decides how many binary packages to emit and
//! how they relate, and the change-history reconciler
//! ([`changelog`]), which merges the run's autogenerated entry into
//! the existing history without disturbing older entries. The laws
//! both are held to live in [`laws`].

use vstd::prelude::*;

pub mod changelog;
pub mod config;
pub mod control;
pub mod deb_info;
pub mod errors;
pub mod feature_graph;
pub mod laws;
pub mod resolve;
pub mod strutil;
pub mod synth;

verus! {

} // verus!
