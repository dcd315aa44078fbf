//! Bulk-import core of a property-management backend.
//!
//! The library reconciles spreadsheet rows with a store of properties and
//! customers: it maps loosely typed cells to typed fields, derives the
//! canonical unit key, upserts properties, links owners and tenant flags, and
//! counts what happened. The store operations it needs are given twice: as an
//! in-memory [`store::Store`] whose behaviour is proved, and as a per-row
//! protocol ([`import::next_step`]) that a driver runs against a real database.
use vstd::prelude::*;

pub mod text;
pub mod key;
pub mod model;
pub mod cell;
pub mod store;
pub mod import;
pub mod access;

verus! {

} // verus!
