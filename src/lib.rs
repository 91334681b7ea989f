//! Incremental synchronisation of server-side object collections: a
//! dotted-path accessor over JSON trees, a keyed object store driven by
//! watch events, the controller that owns one live subscription at a time,
//! and the projection that orders what is shown.

pub mod api;
pub mod display;
pub mod id_map;
pub mod inline;
pub mod json;
pub mod store;
pub mod text;
pub mod watch;
