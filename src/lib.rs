//! Normalisation of a typed UI node tree into addressable templates.
//!
//! The library takes a tree of already-parsed nodes (elements, text, raw
//! expressions, loops, conditional chains and component invocations), merges
//! repeated element attributes, validates component invocations, and indexes
//! every dynamic node and attribute of a template body by a byte path and a
//! dense slot number. An indexed body then yields its template descriptor: the
//! static skeleton with a placeholder per slot, and the two path tables.
use vstd::prelude::*;

pub mod attribute;
pub mod body;
pub mod component;
pub mod diagnostics;
pub mod element;
pub mod ifmt;
pub mod template;

verus! {

} // verus!
