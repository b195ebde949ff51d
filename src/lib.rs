//! Keeps a locally installed item-filter set up to date with the latest
//! published release.
//!
//! The library holds the decisions: which files count as installed filters,
//! how their version line is read, which archive members are installed and
//! under what name, and the update procedure as a state machine whose
//! actions are carried out by the caller.
pub mod text;
pub mod naming;
pub mod version;
pub mod archive;
pub mod location;
pub mod release;
pub mod updater;
