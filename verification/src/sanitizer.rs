//! Rejection of field values that would break the line-based format.

use vstd::prelude::*;
use vstd::std_specs::iter::IteratorSpec;
use crate::error::{Error, Result};

verus! {

/// A character that cannot appear inside a Kanata field: the field
/// separator (tab) and the two line terminators.
pub open spec fn is_forbidden(c: char) -> bool {
    c == '\t' || c == '\n' || c == '\r'
}

/// Whether `s` holds a forbidden character.
pub open spec fn has_forbidden(s: Seq<char>) -> bool {
    exists|i: int| 0 <= i < s.len() && is_forbidden(#[trigger] s[i])
}

/// Field-value validator that rejects strings whose contents would
/// break the line-based Kanata format.
pub struct Sanitizer;

impl Sanitizer {
    /// Reject `text` with `InvalidLabel` when it contains a tab, a newline
    /// or a carriage return.
    pub fn sanitize(text: &str) -> (r: Result)
        ensures
            !has_forbidden(text@) ==> r == Ok::<(), Error>(()),
            has_forbidden(text@) ==> (r matches Err(Error::InvalidLabel(s)) && s@ == text@),
    {
        let mut found = false;
        for c in it: text.chars()
            invariant
                found <==> exists|j: int| 0 <= j < it.index() && is_forbidden(#[trigger] it.seq()[j]),
        {
            if c == '\t' || c == '\n' || c == '\r' {
                found = true;
            }
        }
        if found {
            Err(Error::InvalidLabel(text.to_owned()))
        } else {
            Ok(())
        }
    }
}

} // verus!
