//! Geographic coordinate notations: the verified grid bookkeeping and text structure of
//! UTM, UPS and MGRS references and of angular (DD / DDM / DMS) notations.
use vstd::prelude::*;

pub mod angles;
pub mod angular;
pub mod error;
pub mod grid;
pub mod grid_text;
pub mod mgrs;
pub mod text;
pub mod wgs84;

pub use angular::{LatitudeDir, LongitudeDir};
pub use error::GeoError;
pub use grid::{GridLetter, MGRSZone, UPSBand, UTMBand};

verus! {
} // verus!
