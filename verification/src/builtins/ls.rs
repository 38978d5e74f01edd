//! `ls [-a] [dir]`
use vstd::prelude::*;

use crate::text::{chars_of, copy_string};

verus! {

/// A flag argument starts with `-`.
pub open spec fn is_flag(a: Seq<char>) -> bool {
    a.len() > 0 && a[0] == '-'
}

/// What `ls` lists: hidden entries too, and which directory.
pub struct LsOptions {
    /// Some flag contains `a`.
    pub show_all: bool,
    /// The first argument that is not a flag; the current directory when `None`.
    pub path: Option<String>,
}

/// Reads the flags and the directory of `ls`.
pub fn options(args: &[String]) -> (r: LsOptions)
    ensures
        r.show_all == exists|i: int|
            0 <= i < args@.len() && is_flag(#[trigger] args@[i]@) && args@[i]@.contains('a'),
        r.path matches Some(p) ==> exists|i: int|
            0 <= i < args@.len() && !is_flag(#[trigger] args@[i]@) && p@ == args@[i]@ && forall|
                j: int,
            |
                0 <= j < i ==> is_flag(#[trigger] args@[j]@),
        r.path is None ==> forall|i: int| 0 <= i < args@.len() ==> is_flag(#[trigger] args@[i]@),
{
    let mut show_all = false;
    let mut path: Option<String> = None;
    let mut i: usize = 0;
    while i < args.len()
        invariant
            i <= args@.len(),
            show_all == exists|k: int|
                0 <= k < i && is_flag(#[trigger] args@[k]@) && args@[k]@.contains('a'),
            path matches Some(p) ==> exists|k: int|
                0 <= k < i && !is_flag(#[trigger] args@[k]@) && p@ == args@[k]@ && forall|j: int|
                    0 <= j < k ==> is_flag(#[trigger] args@[j]@),
            path is None ==> forall|k: int| 0 <= k < i ==> is_flag(#[trigger] args@[k]@),
        decreases args.len() - i,
    {
        let a = chars_of(args[i].as_str());
        let flag = a.len() > 0 && a[0] == '-';
        if flag {
            let mut has_a = false;
            let mut j: usize = 0;
            while j < a.len()
                invariant
                    j <= a@.len(),
                    has_a == exists|k: int| 0 <= k < j && a@[k] == 'a',
                decreases a.len() - j,
            {
                if a[j] == 'a' {
                    has_a = true;
                }
                j = j + 1;
            }
            if has_a {
                show_all = true;
            }
        } else if path.is_none() {
            path = Some(copy_string(args[i].as_str()));
        }
        i = i + 1;
    }
    LsOptions { show_all, path }
}

/// An entry is listed unless its name starts with `.` and `-a` was not given.
pub fn shows(name: &str, show_all: bool) -> (r: bool)
    ensures
        r == (show_all || !(name@.len() > 0 && name@[0] == '.')),
{
    let n = chars_of(name);
    show_all || !(n.len() > 0 && n[0] == '.')
}

} // verus!
