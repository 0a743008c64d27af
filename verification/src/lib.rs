//! Decoder for APRS/OGN telemetry lines: position and status reports with
//! their comment extension tokens, plus re-encoding of position reports.

use vstd::prelude::*;

pub mod decimal;
pub mod error;
pub mod laws;
pub mod lex;
pub mod position;
pub mod lonlat;
pub mod message;
pub mod position_comment;
pub mod status;
pub mod status_comment;
pub mod timestamp;

verus! {

} // verus!
