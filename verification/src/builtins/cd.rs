//! `cd [dir | -]`
use vstd::prelude::*;

use crate::text::copy_string;

verus! {

/// The directory `cd` changes to.
pub enum CdTarget {
    /// The home directory (no argument).
    Home,
    /// The previous directory (`cd -`).
    Previous,
    /// The directory named by the first argument.
    Path(String),
}

/// The directory `cd` goes to: home without arguments, the previous one for
/// `-`, else the first argument.
pub fn target(args: &[String]) -> (r: CdTarget)
    ensures
        args@.len() == 0 ==> r is Home,
        args@.len() > 0 && args@[0]@ == "-"@ ==> r is Previous,
        args@.len() > 0 && args@[0]@ != "-"@ ==> (r matches CdTarget::Path(p) && p@ == args@[0]@),
{
    if args.len() == 0 {
        CdTarget::Home
    } else if crate::text::text_eq(args[0].as_str(), "-") {
        CdTarget::Previous
    } else {
        CdTarget::Path(copy_string(args[0].as_str()))
    }
}

} // verus!
