//! Cloud instance metadata for the wasmCloud `cloud-metadata` capability and the
//! "hello" web components that show visit statistics per region.
//!
//! The library holds the provider-independent logic: turning each cloud
//! provider's metadata document into the common [`metadata::Metadata`] record,
//! the key/value data model of the visit counters, request routing, pages and
//! replies of the web components, and the write loop of an output stream.
pub mod text;
pub mod metadata;
pub mod count;
pub mod assoc;
pub mod tally;
pub mod visits;
pub mod digitalocean;
pub mod gcp;
pub mod fly;
pub mod kind;
pub mod web;
pub mod route;
pub mod store;
pub mod stream;
pub mod page;
