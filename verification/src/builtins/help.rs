//! `help [topic]`
use vstd::prelude::*;

use crate::text::{copy_string, join, join_strings, views};

verus! {

/// The lines `help` writes.
pub open spec fn help_text(args: Seq<Seq<char>>) -> Seq<Seq<char>> {
    if args.len() == 0 {
        seq![
            "Available built-in commands:"@,
            "alias cat cd clear echo env export find grep help history jail kill ls mode open pwd ps rm sleep source top touch unset"@,
        ]
    } else {
        seq!["oxide: help: no detailed help available for '"@ + join(args, " "@) + "'."@]
    }
}

/// The lines `help` writes: the list of built-in commands, or a note that
/// the topic has no detailed help.
pub fn lines(args: &Vec<String>) -> (r: Vec<String>)
    ensures
        views(r@) == help_text(views(args@)),
{
    let mut out: Vec<String> = Vec::new();
    if args.len() == 0 {
        out.push(copy_string("Available built-in commands:"));
        out.push(
            copy_string(
                "alias cat cd clear echo env export find grep help history jail kill ls mode open pwd ps rm sleep source top touch unset",
            ),
        );
    } else {
        let mut line = copy_string("oxide: help: no detailed help available for '");
        let joined = join_strings(args, " ");
        line.append(joined.as_str());
        line.append("'.");
        out.push(line);
    }
    assert(views(out@) =~= help_text(views(args@)));
    out
}

} // verus!
