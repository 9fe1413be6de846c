//! A redirect gateway for bang search shortcuts: a request names a query,
//! optionally led by `!alias`, and is answered with a redirect to the
//! alias's search URL.

pub mod text;
pub mod codec;
pub mod request;
pub mod response;
pub mod bang_storage;
pub mod server;
pub mod round_trip;
pub mod config_lookup;
