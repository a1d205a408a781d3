//! Registry of host-entry groups: the records, the listing shown to callers,
//! and the mutations applied to the stored list.
//!
//! The stored list is handled as a whole: an operation takes the list as it
//! was loaded and leaves the list that is to be stored.

pub mod conf;
pub mod group;
pub mod laws;
pub mod model;
pub mod trusted;
