//! The two backends that counters come from, under one roof.
//!
//! Reading is not done here: the caller opens, asks and lists, and hands over
//! what came of it. Here it is decided whether that is a snapshot, and which.

use vstd::prelude::*;
use crate::catalog::{process_counters, processed, Exchange};
use crate::errors::AcquisitionError;
use crate::snapshot::CounterSnapshot;
use crate::text::{read_listing, read_text_counters, Listing};

verus! {

/// Where the counters come from.
#[derive(Clone, Copy, Debug, PartialEq, Eq, Structural)]
pub enum Backend {
    /// The control request, whose counters are those of the catalog.
    Binary,
    /// The directory of text files, whose counters are named after the files.
    Text,
}

/// What one attempt to read the counters gave, by backend.
#[derive(Clone, Debug, PartialEq, Eq)]
pub enum Reading {
    /// How the control request went.
    Binary(Exchange),
    /// What listing the counters directory gave.
    Text(Listing),
}

/// The snapshot that a reading gives, or the error that it ends in.
pub open spec fn acquired(reading: Reading) -> Result<Map<Seq<char>, u128>, AcquisitionError> {
    match reading {
        Reading::Binary(exchange) => processed(exchange),
        Reading::Text(listing) => read_listing(listing),
    }
}

impl Reading {
    /// The backend that was read.
    pub fn backend(&self) -> (r: Backend)
        ensures
            r == match *self {
                Reading::Binary(_) => Backend::Binary,
                Reading::Text(_) => Backend::Text,
            },
    {
        match self {
            Reading::Binary(_) => Backend::Binary,
            Reading::Text(_) => Backend::Text,
        }
    }
}

/// Turns a reading into a snapshot.
///
/// The binary backend fails where the target could not be opened, where the
/// control request failed, and where the answer does not hold the number of
/// values asked for. The text backend fails only where the directory could
/// not be listed.
pub fn acquire(reading: &Reading) -> (r: Result<CounterSnapshot, AcquisitionError>)
    ensures
        match (r, acquired(*reading)) {
            (Ok(snapshot), Ok(wanted)) => snapshot@ == wanted,
            (Err(e), Err(wanted)) => e == wanted,
            _ => false,
        },
{
    match reading {
        Reading::Binary(exchange) => process_counters(exchange),
        Reading::Text(listing) => read_text_counters(listing),
    }
}

} // verus!
