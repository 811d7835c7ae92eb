//! From the text of a status report to the lines that are printed.
//!
//! The caller finds the top directory of the working copy, the directory it
//! stands in and the status text; what is printed for them is computed here.
//! Each printed line is a path relative to the caller's directory, between
//! double quotes, in the order of the status text.

use crate::rebase::{quote, quoted, rebase, relative_path};
use crate::status::{parse_line, parsed, paths_for_lines, ParseError};
use crate::text::{lines, lines_of};
use vstd::prelude::*;

verus! {

/// A line of the status text that names no path.
#[derive(Debug, Clone, Copy, PartialEq, Eq, Structural)]
pub struct LineError {
    /// The position of the line in the text, from 0.
    pub index: usize,
    /// Why the line names no path.
    pub error: ParseError,
}

/// Why a report stops early.
#[derive(Debug, Clone, Copy, PartialEq, Eq, Structural)]
pub enum Failure {
    /// The caller's directory cannot be related to the top directory.
    UnrelatedDirectory,
    /// The line at position `index` of the status text names no path.
    MalformedLine { index: usize, error: ParseError },
    /// The path of the line at position `index` cannot be related to the
    /// caller's directory.
    UnrelatedPath { index: usize },
}

/// The lines to print, and what stopped the report if it is not complete.
#[derive(Debug)]
pub struct Report {
    /// The lines to print, in order.
    pub lines: Vec<String>,
    /// What stopped the report; `None` for a complete one.
    pub failure: Option<Failure>,
}

/// The path that `line` names; the empty path where it names none.
pub open spec fn named_path(line: Seq<char>) -> Seq<char> {
    match parsed(line) {
        Ok(path) => path,
        Err(_) => Seq::empty(),
    }
}

/// What is printed for the line `entry` by a caller whose directory is
/// `offset`: the path that the line names, relative to `offset` and between
/// quotes; nothing where the two cannot be related.
pub open spec fn printed_line(entry: Seq<char>, offset: Seq<char>) -> Option<Seq<char>> {
    match relative_path(named_path(entry), offset) {
        Some(relative) => Some(quoted(relative)),
        None => None,
    }
}

/// The paths that the lines of `status` name, in order, or the first line
/// that names none.
pub fn changed_paths(status: &str) -> (r: Result<Vec<String>, LineError>)
    ensures
        match r {
            Ok(paths) => {
                &&& paths@.len() == lines(status@).len()
                &&& forall|k: int|
                    0 <= k < paths@.len() ==> parsed(#[trigger] lines(status@)[k]) == Ok::<
                        Seq<char>,
                        ParseError,
                    >(paths@[k]@)
            },
            Err(e) => {
                &&& e.index < lines(status@).len()
                &&& parsed(lines(status@)[e.index as int]) == Err::<Seq<char>, ParseError>(e.error)
                &&& forall|k: int| 0 <= k < e.index ==> parsed(#[trigger] lines(status@)[k]) is Ok
            },
        },
{
    let entries = lines_of(status);
    let mut k: usize = 0;
    while k < entries.len()
        invariant
            k <= entries@.len() == lines(status@).len(),
            forall|j: int|
                0 <= j < entries@.len() ==> (#[trigger] entries@[j])@ == lines(status@)[j],
            forall|j: int| 0 <= j < k ==> parsed(#[trigger] lines(status@)[j]) is Ok,
        decreases entries@.len() - k,
    {
        match parse_line(entries[k]) {
            Ok(_) => {},
            Err(error) => {
                return Err(LineError { index: k, error });
            },
        }
        k = k + 1;
    }
    let ghost all = entries@;
    let walk = entries.into_iter();
    assert forall|j: int| 0 <= j < all.len() implies parsed(#[trigger] all[j]@) is Ok by {
        assert(all[j]@ == lines(status@)[j]);
    }
    let paths = paths_for_lines(walk);
    assert forall|j: int| 0 <= j < paths@.len() implies parsed(#[trigger] lines(status@)[j])
        == Ok::<Seq<char>, ParseError>(paths@[j]@) by {
        assert(all[j]@ == lines(status@)[j]);
    }
    Ok(paths)
}

/// What is printed for the status text `status` by a caller that stands in
/// `cwd`, in a working copy whose top directory is `root`.
///
/// The caller's directory is taken relative to the top directory, every line
/// of the status text is read, and then path after path is taken relative to
/// the caller's directory and put between quotes. The first step that fails
/// stops the report; the lines reached before it stay.
pub fn report(root: &str, cwd: &str, status: &str) -> (r: Report)
    ensures
        match relative_path(cwd@, root@) {
            None => r.lines@.len() == 0 && r.failure == Some(Failure::UnrelatedDirectory),
            Some(offset) => {
                let entries = lines(status@);
                let done = r.lines@.len() as int;
                if exists|k: int| 0 <= k < entries.len() && parsed(#[trigger] entries[k]) is Err {
                    &&& done == 0
                    &&& r.failure matches Some(Failure::MalformedLine { index, error })
                    &&& index < entries.len()
                    &&& parsed(entries[index as int]) == Err::<Seq<char>, ParseError>(error)
                    &&& forall|k: int| 0 <= k < index ==> parsed(#[trigger] entries[k]) is Ok
                } else {
                    &&& done <= entries.len()
                    &&& forall|k: int|
                        0 <= k < done ==> printed_line(entries[k], offset) == Some(
                            #[trigger] r.lines@[k]@,
                        )
                    &&& if done == entries.len() {
                        r.failure is None
                    } else {
                        &&& printed_line(entries[done], offset) is None
                        &&& r.failure == Some(Failure::UnrelatedPath { index: done as usize })
                    }
                }
            },
        },
{
    let offset = match rebase(cwd, root) {
        Some(offset) => offset,
        None => {
            return Report { lines: Vec::new(), failure: Some(Failure::UnrelatedDirectory) };
        },
    };
    let paths = match changed_paths(status) {
        Ok(paths) => paths,
        Err(e) => {
            return Report {
                lines: Vec::new(),
                failure: Some(Failure::MalformedLine { index: e.index, error: e.error }),
            };
        },
    };
    let ghost entries = lines(status@);
    let mut printed: Vec<String> = Vec::new();
    let mut k: usize = 0;
    while k < paths.len()
        invariant
            k <= paths@.len() == entries.len(),
            printed@.len() == k,
            entries == lines(status@),
            relative_path(cwd@, root@) == Some(offset@),
            forall|j: int| 0 <= j < entries.len() ==> parsed(#[trigger] entries[j]) is Ok,
            forall|j: int|
                0 <= j < entries.len() ==> named_path(entries[j]) == (#[trigger] paths@[j])@,
            forall|j: int|
                0 <= j < k ==> printed_line(entries[j], offset@) == Some(#[trigger] printed@[j]@),
        decreases paths@.len() - k,
    {
        let ghost before = printed@;
        assert(named_path(entries[k as int]) == paths@[k as int]@);
        match rebase(paths[k].as_str(), offset.as_str()) {
            Some(relative) => printed.push(quote(relative.as_str())),
            None => {
                return Report { lines: printed, failure: Some(Failure::UnrelatedPath { index: k }) };
            },
        }
        assert(forall|j: int| 0 <= j < k ==> printed@[j] == before[j]);
        k = k + 1;
    }
    Report { lines: printed, failure: None }
}

} // verus!
