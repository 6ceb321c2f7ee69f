//! The test that every parser makes first.

use crate::text::{is_blank, is_blank_text};
use vstd::prelude::*;

verus! {

/// Tells whether `input` holds anything to parse: `false` for a text that is
/// empty or consists of white space only.
pub fn is_valid_input(input: &str) -> (valid: bool)
    ensures
        valid == !is_blank(input@),
{
    !is_blank_text(input)
}

} // verus!
