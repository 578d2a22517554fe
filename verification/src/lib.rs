//! A small record store kept fresh by conditional upserts.
//!
//! The store holds rows identified by a unique textual label, each carrying a
//! creation time and a modification time. A run seeds five rows when the
//! store is empty and then re-upserts them, replacing a stored modification
//! time only when the incoming one is strictly greater.

pub mod errors;
pub mod record;
pub mod run;
pub mod store;
