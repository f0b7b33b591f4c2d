//! A binding table and dispatch engine for window and input events.
//!
//! Raw events from a platform event feed are normalized into descriptors
//! ([`descriptor::EventType`]); a table maps each descriptor to a constructor
//! that builds an application-defined value, and a buffered pull queue hands
//! those values out on demand.

pub mod descriptor;
pub mod engine;
