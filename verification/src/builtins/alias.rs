//! `alias name=value ...`
use vstd::prelude::*;

use crate::strmap::StrMap;
use crate::text::{
    chars_of, copy_string, find, find_char, lemma_find_from_unique, occurs_at, slice_chars,
    string_of, views,
};

verus! {

/// A quote character, which is removed around an alias value.
pub open spec fn is_quote(c: char) -> bool {
    c == '"' || c == '\''
}

/// `s` without leading quote characters.
pub open spec fn strip_quotes_front(s: Seq<char>) -> Seq<char>
    decreases s.len(),
{
    if s.len() > 0 && is_quote(s[0]) {
        strip_quotes_front(s.drop_first())
    } else {
        s
    }
}

/// `s` without trailing quote characters.
pub open spec fn strip_quotes_back(s: Seq<char>) -> Seq<char>
    decreases s.len(),
{
    if s.len() > 0 && is_quote(s.last()) {
        strip_quotes_back(s.drop_last())
    } else {
        s
    }
}

/// `str::trim_matches` with the quote characters.
pub open spec fn strip_quotes(s: Seq<char>) -> Seq<char> {
    strip_quotes_back(strip_quotes_front(s))
}

/// `str::split_once('=')`: the text before and after the first `=`.
pub open spec fn split_at_equals(s: Seq<char>) -> Option<(Seq<char>, Seq<char>)> {
    match find(s, seq!['=']) {
        Some(i) => Some((s.take(i), s.skip(i + 1))),
        None => None,
    }
}

/// The view of an alias table.
pub open spec fn table_view(m: Map<Seq<char>, String>) -> Map<Seq<char>, Seq<char>> {
    m.map_values(|v: String| v@)
}

/// The aliases after defining each `name=value` argument in turn, and the
/// exit code: 0, or 1 at the first argument without `=` (the definitions
/// before it stay).
pub open spec fn alias_effect(args: Seq<Seq<char>>, m: Map<Seq<char>, Seq<char>>) -> (Map<
    Seq<char>,
    Seq<char>,
>, i32)
    decreases args.len(),
{
    if args.len() == 0 {
        (m, 0)
    } else {
        match split_at_equals(args[0]) {
            Some((k, v)) => alias_effect(args.drop_first(), m.insert(k, strip_quotes(v))),
            None => (m, 1),
        }
    }
}

/// `alias name=value` defines `name` as `value` without its surrounding
/// quotes, and succeeds.
pub proof fn law_alias_definition(name: Seq<char>, value: Seq<char>, m: Map<Seq<char>, Seq<char>>)
    requires
        forall|i: int| 0 <= i < name.len() ==> #[trigger] name[i] != '=',
    ensures
        alias_effect(seq![name + seq!['='] + value], m) == (m.insert(name, strip_quotes(value)), 0i32),
{
    let a = name + seq!['='] + value;
    let k = name.len() as int;
    assert(a.subrange(k, k + 1) =~= seq!['=']);
    assert forall|j: int| 0 <= j < k implies !occurs_at(a, j, seq!['=']) by {
        assert(a.subrange(j, j + 1)[0] == name[j]);
    }
    lemma_find_from_unique(a, seq!['='], 0, k);
    assert(a.take(k) =~= name);
    assert(a.skip(k + 1) =~= value);
    let args = seq![a];
    assert(args[0] == a);
    assert(split_at_equals(a) == Some((name, value)));
    assert(args.drop_first() =~= Seq::<Seq<char>>::empty());
    let m2 = m.insert(name, strip_quotes(value));
    assert(alias_effect(Seq::<Seq<char>>::empty(), m2) == (m2, 0i32));
}

/// The characters of `s` with surrounding quote characters removed.
fn strip_quote_chars(s: &Vec<char>) -> (r: Vec<char>)
    ensures
        r@ == strip_quotes(s@),
{
    let mut lo: usize = 0;
    assert(s@.skip(0) =~= s@);
    while lo < s.len() && (s[lo] == '"' || s[lo] == '\'')
        invariant
            lo <= s.len(),
            strip_quotes_front(s@) == strip_quotes_front(s@.skip(lo as int)),
        decreases s.len() - lo,
    {
        assert(s@.skip(lo as int).drop_first() =~= s@.skip(lo + 1));
        lo = lo + 1;
    }
    let ghost front = s@.skip(lo as int);
    assert(strip_quotes_front(front) == front);
    let mut hi: usize = s.len();
    assert(front =~= s@.subrange(lo as int, hi as int));
    while hi > lo && (s[hi - 1] == '"' || s[hi - 1] == '\'')
        invariant
            lo <= hi <= s.len(),
            strip_quotes_back(front) == strip_quotes_back(s@.subrange(lo as int, hi as int)),
        decreases hi,
    {
        assert(s@.subrange(lo as int, hi as int).drop_last() =~= s@.subrange(lo as int, hi - 1));
        hi = hi - 1;
    }
    let r = slice_chars(s, lo, hi);
    proof {
        if r@.len() > 0 {
            assert(r@.last() == s@[hi - 1]);
        }
        assert(strip_quotes_back(r@) == r@);
    }
    r
}

/// Defines each `name=value` argument as an alias, in order; the value
/// loses surrounding quote characters. Returns 1 at the first argument
/// without `=`, leaving the definitions before it, and 0 otherwise. With no
/// arguments nothing changes (listing the aliases is up to the caller).
pub fn execute(args: &[String], aliases: &mut StrMap<String>) -> (code: i32)
    requires
        old(aliases).wf(),
    ensures
        final(aliases).wf(),
        (table_view(final(aliases)@), code) == alias_effect(views(args@), table_view(old(aliases)@)),
{
    let ghost all = views(args@);
    let mut i: usize = 0;
    assert(all.skip(0) =~= all);
    while i < args.len()
        invariant
            i <= args@.len(),
            all == views(args@),
            aliases.wf(),
            alias_effect(all, table_view(old(aliases)@)) == alias_effect(
                all.skip(i as int),
                table_view(aliases@),
            ),
        decreases args.len() - i,
    {
        let a = chars_of(args[i].as_str());
        let ghost rest = all.skip(i as int);
        assert(rest[0] == a@);
        assert(rest.drop_first() =~= all.skip(i + 1));
        match find_char(&a, '=') {
            Some(eq) => {
                let key = slice_chars(&a, 0, eq);
                let raw = slice_chars(&a, eq + 1, a.len());
                assert(key@ =~= a@.take(eq as int));
                assert(raw@ =~= a@.skip(eq + 1));
                let value = strip_quote_chars(&raw);
                let ghost before = aliases@;
                let k = string_of(&key);
                let v = string_of(&value);
                aliases.insert(k, v);
                assert(table_view(aliases@) =~= table_view(before).insert(key@, value@));
            },
            None => {
                return 1;
            },
        }
        i = i + 1;
    }
    assert(all.skip(i as int) =~= Seq::<Seq<char>>::empty());
    0
}

/// The line that lists one alias: `alias name='value'`.
pub open spec fn definition_line(name: Seq<char>, value: Seq<char>) -> Seq<char> {
    "alias "@ + name + seq!['=', '\''] + value + seq!['\'']
}

/// The lines that `alias` without arguments writes: one per alias, in the
/// order the aliases were first defined.
pub fn listing(aliases: &StrMap<String>) -> (r: Vec<String>)
    requires
        aliases.wf(),
    ensures
        r@.len() == aliases.entry_seq().len(),
        forall|i: int|
            0 <= i < r@.len() ==> #[trigger] r@[i]@ == definition_line(
                aliases.entry_seq()[i].0@,
                aliases.entry_seq()[i].1@,
            ),
{
    let entries = aliases.entries();
    let mut out: Vec<String> = Vec::new();
    let mut i: usize = 0;
    while i < entries.len()
        invariant
            i <= entries@.len(),
            entries@ == aliases.entry_seq(),
            out@.len() == i,
            forall|k: int|
                0 <= k < i ==> #[trigger] out@[k]@ == definition_line(
                    entries@[k].0@,
                    entries@[k].1@,
                ),
        decreases entries.len() - i,
    {
        let mut line = copy_string("alias ");
        line.append(entries[i].0.as_str());
        line.append("='");
        line.append(entries[i].1.as_str());
        line.append("'");
        proof {
            reveal_strlit("='");
            reveal_strlit("'");
        }
        out.push(line);
        i = i + 1;
    }
    out
}

} // verus!
