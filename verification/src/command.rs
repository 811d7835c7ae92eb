//! What a run of the version control command yields.
//!
//! Running the command is the caller's part. What the caller then holds,
//! whether the command succeeded and the text it wrote, is turned here into
//! the text to work on, or into nothing.

use crate::text::{chars_of, trim, trim_bounds};
use vstd::prelude::*;
use vstd::string::StrSliceExecFns;

verus! {

/// The text that a run of the command yields: what it wrote, without the
/// white space around it. A run that failed yields nothing, and so does one
/// that wrote nothing but white space.
pub fn command_output(success: bool, stdout: &str) -> (r: Option<String>)
    ensures
        r is Some <==> success && trim(stdout@).len() > 0,
        r is Some ==> r->0@ == trim(stdout@),
{
    if !success {
        return None;
    }
    let chars = chars_of(stdout);
    let (from, to) = trim_bounds(chars.as_slice());
    if from == to {
        return None;
    }
    Some(stdout.substring_char(from, to).to_owned())
}

} // verus!
