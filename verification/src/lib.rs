//! Synchronisation and reporting engine for a counting channel: history is
//! scanned page by page, folded into daily maxima, rendered as size-bounded
//! yearly report pages and reconciled against the pages published earlier.
//!
//! The engine decides and computes; it does no input or output. A caller
//! fetches the pages that a [`scan::Scan`] asks for, carries out what a
//! [`reconcile::Reconciler`] decides, and stores the state that a
//! synchronisation of [`sync`] commits. [`session::SessionManager`] keeps at
//! most one synchronisation running for a guild.

pub mod aggregate;
pub mod counts;
pub mod data;
pub mod date;
pub mod paginate;
pub mod parse;
pub mod progress;
pub mod purge;
pub mod reconcile;
pub mod render;
pub mod report;
pub mod scan;
pub mod session;
pub mod setup;
pub mod sorted_map;
pub mod sync;
pub mod text;
pub mod words;
