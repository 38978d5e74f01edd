//! `echo args...`
use vstd::prelude::*;

use crate::text::{join, join_strings, views};

verus! {

/// The line `echo` writes: its arguments separated by single spaces.
pub fn line(args: &Vec<String>) -> (r: String)
    ensures
        r@ == join(views(args@), " "@),
{
    join_strings(args, " ")
}

} // verus!
