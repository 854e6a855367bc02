//! slint-mapping: tile addressing, URL and path building, routing
//! response interpretation, viewport tile grids and cache-warming
//! plans for a slippy-map widget.
pub mod cache;
pub mod prefetch;
pub mod prefetch_cli;
pub mod routers;
pub mod routing;
pub mod source;
pub mod sources;
pub mod text;
pub mod viewport;

pub use source::TileKey;
