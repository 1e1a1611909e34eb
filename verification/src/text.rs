//! Small helpers on owned text.

use vstd::prelude::*;
use vstd::string::*;

verus! {

/// The characters of an optional text.
pub open spec fn text_of(value: Option<String>) -> Option<Seq<char>> {
    match value {
        Some(text) => Some(text@),
        None => None,
    }
}

/// A copy of an optional text.
pub fn clone_text(value: &Option<String>) -> (copy: Option<String>)
    ensures
        text_of(copy) == text_of(*value),
{
    match value {
        Some(text) => Some(text.clone()),
        None => None,
    }
}

/// Whether `text` has at least `min` and at most `max` characters.
pub fn length_between(text: &str, min: usize, max: usize) -> (within: bool)
    ensures
        within == (min <= text@.len() <= max),
{
    let length = text.unicode_len();
    min <= length && length <= max
}

} // verus!
