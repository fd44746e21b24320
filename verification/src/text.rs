//! Optional names: their abstract value, comparison and copying.

use vstd::prelude::*;

verus! {

/// The characters of an optional name.
pub open spec fn text_of(name: Option<String>) -> Option<Seq<char>> {
    match name {
        Some(s) => Some(s@),
        None => None,
    }
}

/// Whether two optional names are both absent or hold the same characters.
pub fn same_text(a: &Option<String>, b: &Option<String>) -> (same: bool)
    ensures
        same == (text_of(*a) == text_of(*b)),
{
    match (a, b) {
        (None, None) => true,
        (Some(x), Some(y)) => *x == *y,
        _ => false,
    }
}

/// A copy of an optional name.
pub fn copy_text(name: &Option<String>) -> (copy: Option<String>)
    ensures
        text_of(copy) == text_of(*name),
{
    match name {
        Some(s) => Some(s.clone()),
        None => None,
    }
}

} // verus!
