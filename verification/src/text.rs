//! The text backend: counters read from a directory of text files.
//!
//! Each file stands for one counter and is named after it. Among its lines
//! one holds the words `since mount` and a magnitude. A file without such a
//! line, or whose line holds no number, gives no counter.

use vstd::prelude::*;
use vstd::utf8::*;
use crate::errors::AcquisitionError;
use crate::snapshot::CounterSnapshot;
use crate::units::{parse_value, UnitParser};

verus! {

/// The byte that ends a line.
pub const NEWLINE: u8 = 10;

/// The bytes of `since mount`.
pub const SINCE_MOUNT: [u8; 11] = [115, 105, 110, 99, 101, 32, 109, 111, 117, 110, 116];

/// One file of the counters directory: its name and what it holds.
#[derive(Clone, Debug, PartialEq, Eq)]
pub struct TextFile {
    pub name: String,
    pub contents: String,
}

/// What listing and reading the counters directory gave.
#[derive(Clone, Debug, PartialEq, Eq)]
pub enum Listing {
    /// The directory could not be listed.
    Failed { errno: i32 },
    /// The regular files of the directory.
    Files(Vec<TextFile>),
}

/// The words that mark the line of a counter's value, as bytes.
pub open spec fn marker() -> Seq<u8> {
    SINCE_MOUNT@
}

/// `needle` stands in `s` at index `at`.
pub open spec fn occurs_at(s: Seq<u8>, needle: Seq<u8>, at: int) -> bool {
    &&& 0 <= at
    &&& at + needle.len() <= s.len()
    &&& s.subrange(at, at + needle.len()) == needle
}

/// `needle` stands somewhere in `s`.
pub open spec fn occurs_in(s: Seq<u8>, needle: Seq<u8>) -> bool {
    exists|at: int| occurs_at(s, needle, at)
}

/// The end of the line that begins at `from`: the index of the next newline,
/// or the length of `s` where none follows.
pub open spec fn line_end(s: Seq<u8>, from: int) -> int
    decreases s.len() - from,
{
    if from < 0 || from >= s.len() {
        s.len() as int
    } else if s[from] == NEWLINE {
        from
    } else {
        line_end(s, from + 1)
    }
}

/// The first line of `s`, among those that begin at or after `from`, that
/// holds the marker; `None` where no line does.
pub open spec fn marked_line(s: Seq<u8>, from: int) -> Option<Seq<u8>>
    decreases s.len() - from,
{
    if from < 0 || from >= s.len() {
        None
    } else {
        proof {
            lemma_line_end(s, from);
        }
        let end = line_end(s, from);
        let line = s.subrange(from, end);
        if occurs_in(line, marker()) {
            Some(line)
        } else if end >= s.len() {
            None
        } else {
            marked_line(s, end + 1)
        }
    }
}

/// The value that a counter's file states: the magnitude on its first line
/// that holds the marker.
pub open spec fn since_mount(contents: Seq<u8>) -> Option<u128> {
    match marked_line(contents, 0) {
        Some(line) => parse_value(line),
        None => None,
    }
}

/// The counters that a list of files states: each file that states a value
/// gives its name that value, a later file of the same name replacing an
/// earlier one.
pub open spec fn text_table(files: Seq<(Seq<char>, Seq<char>)>) -> Map<Seq<char>, u128>
    decreases files.len(),
{
    if files.len() == 0 {
        Map::empty()
    } else {
        let before = text_table(files.drop_last());
        match since_mount(encode_utf8(files.last().1)) {
            Some(value) => before.insert(files.last().0, value),
            None => before,
        }
    }
}

/// The names and contents of a list of files.
pub open spec fn file_models(files: Seq<TextFile>) -> Seq<(Seq<char>, Seq<char>)> {
    Seq::new(files.len(), |i: int| (files[i].name@, files[i].contents@))
}

/// A line ends at or after its beginning, within the text.
pub proof fn lemma_line_end(s: Seq<u8>, from: int)
    requires
        0 <= from <= s.len(),
    ensures
        from <= line_end(s, from) <= s.len(),
    decreases s.len() - from,
{
    if from < s.len() && s[from] != NEWLINE {
        lemma_line_end(s, from + 1);
    }
}

fn end_of_line(s: &[u8], from: usize) -> (r: usize)
    requires
        from <= s.len(),
    ensures
        r == line_end(s@, from as int),
        from <= r <= s.len(),
{
    let mut i: usize = from;
    while i < s.len() && s[i] != NEWLINE
        invariant
            from <= i <= s.len(),
            line_end(s@, i as int) == line_end(s@, from as int),
        decreases s.len() - i,
    {
        i += 1;
    }
    i
}

/// Whether the marker stands in `s` at index `at`.
fn marker_at(s: &[u8], at: usize) -> (r: bool)
    requires
        at + SINCE_MOUNT@.len() <= s.len(),
    ensures
        r == occurs_at(s@, marker(), at as int),
{
    let mut j: usize = 0;
    while j < SINCE_MOUNT.len()
        invariant
            j <= SINCE_MOUNT@.len(),
            at + SINCE_MOUNT@.len() <= s.len(),
            forall|h: int| 0 <= h < j ==> s@[at + h] == SINCE_MOUNT@[h],
        decreases SINCE_MOUNT@.len() - j,
    {
        if s[at + j] != SINCE_MOUNT[j] {
            proof {
                let piece = s@.subrange(at as int, at + marker().len());
                assert(piece[j as int] == s@[at + j]);
            }
            return false;
        }
        j += 1;
    }
    assert(s@.subrange(at as int, at + marker().len()) =~= marker());
    true
}

/// Whether the marker stands in the bytes of `s` from `from` up to `to`.
fn holds_marker(s: &[u8], from: usize, to: usize) -> (r: bool)
    requires
        from <= to <= s.len(),
    ensures
        r == occurs_in(s@.subrange(from as int, to as int), marker()),
{
    let ghost line = s@.subrange(from as int, to as int);
    let width: usize = SINCE_MOUNT.len();
    if to - from < width {
        assert(!occurs_in(line, marker()));
        return false;
    }
    let last: usize = to - width;
    let mut at: usize = from;
    while at <= last
        invariant
            from <= at <= last + 1,
            last + width == to,
            to <= s.len(),
            width == marker().len(),
            line == s@.subrange(from as int, to as int),
            forall|h: int| 0 <= h < at - from ==> !occurs_at(line, marker(), h),
        decreases last + 1 - at,
    {
        let found: bool = marker_at(s, at);
        proof {
            assert(line.subrange(at - from, at - from + width) =~= s@.subrange(
                at as int,
                at + width,
            ));
        }
        if found {
            assert(occurs_at(line, marker(), at - from));
            return true;
        }
        at += 1;
    }
    assert(!occurs_in(line, marker()));
    false
}

/// The value that a counter's file states.
///
/// The file is searched line by line for the first line that holds
/// `since mount`; the result is the magnitude on that line. It is `None`
/// where no line holds the words, or where that line holds no number.
pub fn since_mount_value(contents: &str) -> (r: Option<u128>)
    ensures
        r == since_mount(encode_utf8(contents@)),
{
    let s: &[u8] = contents.as_bytes();
    let mut from: usize = 0;
    while from < s.len()
        invariant
            from <= s.len(),
            s@ == encode_utf8(contents@),
            marked_line(s@, from as int) == marked_line(s@, 0),
        decreases s.len() - from,
    {
        let end: usize = end_of_line(s, from);
        if holds_marker(s, from, end) {
            let line: &[u8] = vstd::slice::slice_subrange(s, from, end);
            assert(marked_line(s@, from as int) == Some(line@));
            return UnitParser::parse_bytes(line);
        }
        if end == s.len() {
            assert(marked_line(s@, from as int) is None);
            return None;
        }
        assert(marked_line(s@, from as int) == marked_line(s@, end + 1));
        from = end + 1;
    }
    None
}

/// The snapshot that a list of files states.
pub fn text_counters(files: &Vec<TextFile>) -> (r: CounterSnapshot)
    ensures
        r@ == text_table(file_models(files@)),
{
    let mut r = CounterSnapshot::new();
    let mut i: usize = 0;
    let ghost models = file_models(files@);
    assert(models.take(0) =~= Seq::empty());
    while i < files.len()
        invariant
            i <= files@.len(),
            models == file_models(files@),
            r@ == text_table(models.take(i as int)),
        decreases files@.len() - i,
    {
        proof {
            assert(models.take(i + 1).drop_last() =~= models.take(i as int));
            assert(models.take(i + 1).last() == (files@[i as int].name@, files@[i as int].contents@));
        }
        match since_mount_value(files[i].contents.as_str()) {
            Some(value) => {
                r.insert(files[i].name.clone(), value);
            },
            None => {},
        }
        i += 1;
    }
    assert(models.take(files@.len() as int) =~= models);
    r
}

/// The snapshot that a listing gives, or the error that it ends in.
pub open spec fn read_listing(listing: Listing) -> Result<Map<Seq<char>, u128>, AcquisitionError> {
    match listing {
        Listing::Failed { errno } => Err(AcquisitionError::Io { errno }),
        Listing::Files(files) => Ok(text_table(file_models(files@))),
    }
}

/// Turns what listing the counters directory gave into a snapshot.
///
/// Only a directory that could not be listed is an error. A file that states
/// no value is left out.
pub fn read_text_counters(listing: &Listing) -> (r: Result<CounterSnapshot, AcquisitionError>)
    ensures
        match (r, read_listing(*listing)) {
            (Ok(snapshot), Ok(wanted)) => snapshot@ == wanted,
            (Err(e), Err(wanted)) => e == wanted,
            _ => false,
        },
{
    match listing {
        Listing::Failed { errno } => Err(AcquisitionError::Io { errno: *errno }),
        Listing::Files(files) => Ok(text_counters(files)),
    }
}

} // verus!
