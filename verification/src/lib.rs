//! A network-to-hardware bridge for a serial pen plotter.
//!
//! Commands arrive over HTTP as line-separated batches, are validated and
//! split by the ingestion endpoint, queued in arrival order, and relayed one
//! at a time to the control board over a serial line, observing the board's
//! synchronous command/acknowledgment protocol.

use vstd::prelude::*;

pub mod discovery;
pub mod ingest;
pub mod queue;
pub mod relay;

verus! {

/// The port the HTTP listener binds when none is configured.
pub const DEFAULT_PORT: u16 = 7878;

} // verus!
