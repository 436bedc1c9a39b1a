//! Runs without a screen: one document of counters, written as JSON.
//!
//! The document is a flat object that gives each counter's name its number.
//! It holds either one snapshot, or the deltas between two snapshots taken
//! an interval apart.

use vstd::prelude::*;
use crate::diff::{calculate_diffs, diff_map};
use crate::snapshot::CounterSnapshot;

verus! {

/// The interval, in seconds, of a run that was given none.
pub const DEFAULT_INTERVAL_SECS: u64 = 2;

/// How the program runs.
#[derive(Clone, Copy, Debug, PartialEq, Eq, Structural)]
pub enum RunMode {
    /// The table on the screen, refreshed until the user quits.
    Interactive,
    /// One snapshot, written as a document.
    Snapshot,
    /// Two snapshots an interval apart, their deltas written as a document.
    Interval,
}

/// Why no document could be written.
#[derive(Clone, Copy, Debug, PartialEq, Eq, Structural)]
pub enum ReportError {
    /// The document could not be turned into JSON.
    Serialize,
}

/// How the program runs for its flags: without `json` on the screen; with it
/// as one document, which compares over the interval where an interval above
/// the default one was asked for.
pub open spec fn mode_of(json: bool, interval_secs: u64) -> RunMode {
    if !json {
        RunMode::Interactive
    } else if interval_secs > DEFAULT_INTERVAL_SECS {
        RunMode::Interval
    } else {
        RunMode::Snapshot
    }
}

/// How the program runs for its flags.
pub fn select_mode(json: bool, interval_secs: u64) -> (r: RunMode)
    ensures
        r == mode_of(json, interval_secs),
{
    if !json {
        RunMode::Interactive
    } else if interval_secs > DEFAULT_INTERVAL_SECS {
        RunMode::Interval
    } else {
        RunMode::Snapshot
    }
}

/// What the document holds: the first snapshot where there is no second, the
/// deltas from the first to the second where there is one.
pub open spec fn document_of(
    first: Map<Seq<char>, u128>,
    second: Option<Map<Seq<char>, u128>>,
) -> Map<Seq<char>, u128> {
    match second {
        None => first,
        Some(later) => diff_map(first, later),
    }
}

/// The view of a snapshot that may be missing.
pub open spec fn view_of(snapshot: Option<CounterSnapshot>) -> Option<Map<Seq<char>, u128>> {
    match snapshot {
        None => None,
        Some(s) => Some(s@),
    }
}

/// What the document holds.
pub fn batch_document(first: &CounterSnapshot, second: &Option<CounterSnapshot>) -> (r:
    CounterSnapshot)
    ensures
        r@ == document_of(first@, view_of(*second)),
{
    match second {
        None => first.clone(),
        Some(later) => calculate_diffs(first, later),
    }
}

/// The error type of `serde_json`, declared so that it can pass through
/// verified code. Nothing is known of what it holds.
#[verifier::external_type_specification]
#[verifier::external_body]
pub struct ExJsonError(serde_json::Error);

/// The text that `serde_json::to_string_pretty` gives for the object that
/// holds each name of `counters` with its number, the names in ascending
/// order of their bytes.
pub uninterp spec fn pretty_json(counters: Map<Seq<char>, u128>) -> Seq<char>;

/// Calls `serde_json::to_string_pretty` on the counters of `doc`, held in a
/// `BTreeMap` from names to numbers.
///
/// The call succeeds, and its text is the one that `pretty_json` names. It
/// succeeds because nothing on its way can fail: the keys are strings, the
/// values are integers, and the serializer's only errors on this way are
/// those of its writer, which is a vector of bytes.
#[verifier::external_body]
fn serialize_pretty(doc: &CounterSnapshot) -> (r: Result<String, serde_json::Error>)
    ensures
        r is Ok,
        r matches Ok(text) ==> text@ == pretty_json(doc@),
{
    let object: std::collections::BTreeMap<&str, u128> = doc.entries.iter().map(
        |c| (c.name.as_str(), c.value),
    ).collect();
    serde_json::to_string_pretty(&object)
}

/// What comes of an attempt to write JSON: the text where there is one, and
/// the library's own error in place of the serializer's.
pub fn report_from(outcome: Result<String, serde_json::Error>) -> (r: Result<String, ReportError>)
    ensures
        r == match outcome {
            Ok(text) => Ok::<String, ReportError>(text),
            Err(_) => Err(ReportError::Serialize),
        },
{
    match outcome {
        Ok(text) => Ok(text),
        Err(_) => Err(ReportError::Serialize),
    }
}

/// The counters of `doc` as pretty-printed JSON.
///
/// There is always a text: the object of exactly the counters of `doc`, the
/// names in ascending order.
pub fn to_json(doc: &CounterSnapshot) -> (r: Result<String, ReportError>)
    ensures
        r is Ok,
        r matches Ok(text) ==> text@ == pretty_json(doc@),
{
    report_from(serialize_pretty(doc))
}

/// The document of a run without a screen, as pretty-printed JSON: the first
/// snapshot where there is no second, the deltas from the first to the second
/// where there is one. There is always a text.
pub fn batch_report(first: &CounterSnapshot, second: &Option<CounterSnapshot>) -> (r: Result<
    String,
    ReportError,
>)
    ensures
        r is Ok,
        r matches Ok(text) ==> text@ == pretty_json(document_of(first@, view_of(*second))),
{
    let doc = batch_document(first, second);
    to_json(&doc)
}

} // verus!
