//! Reconciliation core for a `ZoneFile` resource: resolves zone
//! references, detects upstream content changes, assigns RFC-1912
//! serial numbers, renders the combined zonefile artifact, and
//! maintains the status maps and backreference labels.
pub mod detect;
pub mod driver;
pub mod kvmap;
pub mod labels;
pub mod reconcile;
pub mod refs;
pub mod render;
pub mod serial;
pub mod zonefile;
