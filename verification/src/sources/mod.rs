//! Tile source building blocks: URL templating and PNG decoding,
//! on-disk tile paths, synthetic test tiles, the work queue and key
//! set, the request bookkeeping of the HTTP tile source, and the
//! bounded tile memory of the browser tile source.
pub mod file;
pub mod keyset;
pub mod osm;
pub mod queue;
pub mod synthetic;
pub mod util;
pub mod wasm_osm;
