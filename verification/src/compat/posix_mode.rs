//! Strict POSIX mode.
use vstd::prelude::*;

use crate::text::{chars_of, slice_chars, string_of, append_chars};

verus! {

/// A line that starts with `. ` (the POSIX spelling of `source`) has that
/// prefix replaced by `source `; any other line is unchanged.
pub open spec fn posix_translation(s: Seq<char>) -> Seq<char> {
    if s.len() >= 2 && s[0] == '.' && s[1] == ' ' {
        seq!['s', 'o', 'u', 'r', 'c', 'e', ' '] + s.skip(2)
    } else {
        s
    }
}

/// Rewrites `. file` into `source file`.
pub fn translate(input: &str) -> (r: String)
    ensures
        r@ == posix_translation(input@),
{
    let s = chars_of(input);
    if s.len() >= 2 && s[0] == '.' && s[1] == ' ' {
        let mut out: Vec<char> = Vec::new();
        out.push('s');
        out.push('o');
        out.push('u');
        out.push('r');
        out.push('c');
        out.push('e');
        out.push(' ');
        let rest = slice_chars(&s, 2, s.len());
        append_chars(&mut out, &rest);
        assert(rest@ =~= s@.skip(2));
        assert(out@ =~= posix_translation(input@));
        string_of(&out)
    } else {
        string_of(&s)
    }
}

} // verus!
