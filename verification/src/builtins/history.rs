//! Command history.
use vstd::prelude::*;

use crate::text::{
    decimal, decimal_text, lines, lines_of, pad_left, pad_left_text, trim, trim_text, views,
};

verus! {

/// A line is recorded in the history file unless it is blank.
pub fn should_record(line: &str) -> (r: bool)
    ensures
        r == (trim(line@).len() > 0),
{
    let t = trim_text(line);
    t.as_str().unicode_len() > 0
}

/// The entries of a history file: one per line.
pub fn entries(content: &str) -> (r: Vec<String>)
    ensures
        views(r@) == lines(content@),
{
    lines_of(content)
}

/// The line `history` writes for the entry at `index` (counted from 0):
/// its number counted from 1, right-aligned in five columns, two spaces,
/// and the entry.
pub open spec fn listing(index: nat, entry: Seq<char>) -> Seq<char> {
    pad_left(decimal(index + 1), 5) + seq![' ', ' '] + entry
}

/// Formats an entry of the history listing.
pub fn listing_line(index: usize, entry: &str) -> (r: String)
    requires
        index < usize::MAX,
    ensures
        r@ == listing(index as nat, entry@),
{
    let n = decimal_text(index + 1);
    let mut out = pad_left_text(n.as_str(), 5);
    out.append("  ");
    out.append(entry);
    proof {
        reveal_strlit("  ");
    }
    out
}

} // verus!
