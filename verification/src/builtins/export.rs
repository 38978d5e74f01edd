//! `export KEY=VALUE ...`
use vstd::prelude::*;

use crate::builtins::alias::split_at_equals;
use crate::text::{chars_of, find_char, slice_chars, string_of, views};

verus! {

/// The assignments of the arguments up to the first one without `=`, and
/// whether every argument was an assignment.
pub open spec fn export_pairs(args: Seq<Seq<char>>) -> (Seq<(Seq<char>, Seq<char>)>, bool)
    decreases args.len(),
{
    if args.len() == 0 {
        (Seq::empty(), true)
    } else {
        match split_at_equals(args[0]) {
            Some(kv) => {
                let (rest, ok) = export_pairs(args.drop_first());
                (seq![kv] + rest, ok)
            },
            None => (Seq::empty(), false),
        }
    }
}

/// The views of a list of pairs of strings.
pub open spec fn pair_views(v: Seq<(String, String)>) -> Seq<(Seq<char>, Seq<char>)> {
    v.map_values(|p: (String, String)| (p.0@, p.1@))
}

/// The variables `export` sets, in order, and its exit code: 1 without
/// arguments or when an argument has no `=` (the variables before it are
/// still set), 0 otherwise.
pub fn assignments(args: &[String]) -> (r: (Vec<(String, String)>, i32))
    ensures
        pair_views(r.0@) == export_pairs(views(args@)).0,
        r.1 == (if args@.len() == 0 || !export_pairs(views(args@)).1 {
            1i32
        } else {
            0i32
        }),
{
    let ghost all = views(args@);
    let mut out: Vec<(String, String)> = Vec::new();
    let mut i: usize = 0;
    assert(all.skip(0) =~= all);
    assert(pair_views(out@) + export_pairs(all).0 =~= export_pairs(all).0);
    while i < args.len()
        invariant
            i <= args@.len(),
            all == views(args@),
            export_pairs(all).0 == pair_views(out@) + export_pairs(all.skip(i as int)).0,
            export_pairs(all).1 == export_pairs(all.skip(i as int)).1,
        decreases args.len() - i,
    {
        let a = chars_of(args[i].as_str());
        let ghost rest = all.skip(i as int);
        assert(rest[0] == a@);
        assert(rest.drop_first() =~= all.skip(i + 1));
        match find_char(&a, '=') {
            Some(eq) => {
                let key = slice_chars(&a, 0, eq);
                let value = slice_chars(&a, eq + 1, a.len());
                assert(key@ =~= a@.take(eq as int));
                assert(value@ =~= a@.skip(eq + 1));
                let ghost before = pair_views(out@);
                out.push((string_of(&key), string_of(&value)));
                assert(pair_views(out@) =~= before.push((key@, value@)));
                assert(before + export_pairs(rest).0 =~= pair_views(out@) + export_pairs(
                    all.skip(i + 1),
                ).0);
            },
            None => {
                assert(pair_views(out@) + export_pairs(rest).0 =~= pair_views(out@));
                return (out, 1);
            },
        }
        i = i + 1;
    }
    assert(all.skip(i as int) =~= Seq::<Seq<char>>::empty());
    assert(pair_views(out@) + Seq::<(Seq<char>, Seq<char>)>::empty() =~= pair_views(out@));
    if args.len() == 0 {
        (out, 1)
    } else {
        (out, 0)
    }
}

} // verus!
