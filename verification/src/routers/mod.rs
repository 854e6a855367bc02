//! Concrete routing-engine adapters.
pub mod osrm;

pub use osrm::{OsrmRouter, OSRM_DEMO_URL};
