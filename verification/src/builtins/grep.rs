//! `grep <pattern> <file...>`
use vstd::prelude::*;

use crate::text::{
    contains, contains_text, copy_string, decimal, decimal_text, lines, lines_of, views,
};

verus! {

/// The lines from index `i` on that contain `pat`, numbered from 1.
pub open spec fn matches_from(ls: Seq<Seq<char>>, pat: Seq<char>, i: int) -> Seq<(int, Seq<char>)>
    decreases ls.len() - i,
{
    if i < 0 || i >= ls.len() {
        Seq::empty()
    } else if contains(ls[i], pat) {
        seq![(i + 1, ls[i])] + matches_from(ls, pat, i + 1)
    } else {
        matches_from(ls, pat, i + 1)
    }
}

/// The views of numbered lines.
pub open spec fn numbered_views(v: Seq<(usize, String)>) -> Seq<(int, Seq<char>)> {
    v.map_values(|p: (usize, String)| (p.0 as int, p.1@))
}

/// The lines of `content` that contain `pattern`, with their line numbers
/// (counted from 1), in order.
pub fn matching_lines(content: &str, pattern: &str) -> (r: Vec<(usize, String)>)
    ensures
        numbered_views(r@) == matches_from(lines(content@), pattern@, 0),
{
    let ls = lines_of(content);
    let ghost lv = views(ls@);
    let mut out: Vec<(usize, String)> = Vec::new();
    let mut i: usize = 0;
    assert(numbered_views(out@) + matches_from(lv, pattern@, 0) =~= matches_from(lv, pattern@, 0));
    while i < ls.len()
        invariant
            i <= ls@.len(),
            lv == views(ls@),
            matches_from(lv, pattern@, 0) == numbered_views(out@) + matches_from(lv, pattern@, i as int),
        decreases ls.len() - i,
    {
        let ghost before = numbered_views(out@);
        assert(lv[i as int] == ls@[i as int]@);
        if contains_text(ls[i].as_str(), pattern) {
            out.push((i + 1, copy_string(ls[i].as_str())));
            assert(numbered_views(out@) =~= before.push((i + 1, lv[i as int])));
            assert(before + matches_from(lv, pattern@, i as int) =~= numbered_views(out@)
                + matches_from(lv, pattern@, i + 1));
        }
        i = i + 1;
    }
    assert(numbered_views(out@) + Seq::<(int, Seq<char>)>::empty() =~= numbered_views(out@));
    out
}

/// The text `grep` writes for a matching line: `path:number: line` when
/// several files are searched, the line alone otherwise.
pub open spec fn report(path: Seq<char>, number: nat, line: Seq<char>, many_files: bool) -> Seq<
    char,
> {
    if many_files {
        path + seq![':'] + decimal(number) + seq![':', ' '] + line
    } else {
        line
    }
}

/// Formats a matching line as `grep` writes it.
pub fn report_line(path: &str, number: usize, line: &str, many_files: bool) -> (r: String)
    ensures
        r@ == report(path@, number as nat, line@, many_files),
{
    if many_files {
        let mut out = copy_string(path);
        out.append(":");
        let n = decimal_text(number);
        out.append(n.as_str());
        out.append(": ");
        out.append(line);
        proof {
            reveal_strlit(":");
            reveal_strlit(": ");
        }
        out
    } else {
        copy_string(line)
    }
}

} // verus!
