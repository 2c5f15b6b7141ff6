//! Peer-type inference for the neighbours of one reference autonomous system.
//!
//! Every route of a routing-table snapshot carries three signals of the
//! commercial relationship between the reference AS and its neighbour: the
//! AS-path, the compact communities and the large communities. This crate
//! classifies the signals, checks that they agree, and folds the outcome of
//! every route into per-neighbour and per-file summaries.

use vstd::prelude::*;

pub mod aggregate;
pub mod checks;
pub mod counts;
pub mod files;
pub mod pattern;
pub mod providers;
pub mod routes;
pub mod sets;
pub mod text;

pub use aggregate::{process_lines, FileResult, FileScan, Line, PeerInfo};
pub use checks::Check;
pub use files::get_mux_protocol;
pub use providers::ProviderOutput;
pub use routes::{PeerType, Route};

verus! {

/// The reference autonomous system whose neighbours are classified.
pub const VULTR_ASN: u32 = 20473;

} // verus!
