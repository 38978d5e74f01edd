//! `find <path> <search_term>`
use vstd::prelude::*;

use crate::text::{contains, contains_text};

verus! {

/// A file is reported when its name contains the search term.
pub fn name_matches(file_name: &str, target: &str) -> (r: bool)
    ensures
        r == contains(file_name@, target@),
{
    contains_text(file_name, target)
}

} // verus!
