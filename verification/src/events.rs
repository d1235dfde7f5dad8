//! Plain event-record types handed over by the data-loading collaborator.

use vstd::prelude::*;

verus! {

/// How a table of lines of response should be read.
#[derive(Clone, Debug)]
pub struct Args {
    /// File holding the event table.
    pub input_file: String,
    /// The dataset location inside the input file.
    pub dataset: String,
    /// Half-open range of event numbers to read, or the whole table.
    pub event_range: Option<(usize, usize)>,
    /// Use the true (simulated) coordinates rather than the reconstructed
    /// ones.
    pub use_true: bool,
    /// The table already holds lines of response rather than raw events.
    pub read_lors: bool,
}

/// A sensor charge reading.
#[derive(Clone, Copy, Debug, PartialEq, Eq, Structural)]
pub struct Charge {
    pub event_id: u64,
    pub sensor_id: u64,
    pub charge: u64,
}

} // verus!
