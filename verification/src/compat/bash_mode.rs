//! Bash emulation.
use vstd::prelude::*;

use crate::text::{contains, lemma_replace_all_absent, replace_all, replace_text};

verus! {

/// `[[` becomes `[`, `]]` becomes `]`, and the word `function ` is dropped.
pub open spec fn bash_translation(s: Seq<char>) -> Seq<char> {
    replace_all(
        replace_all(replace_all(s, seq!['[', '['], seq!['[']), seq![']', ']'], seq![']']),
        seq!['f', 'u', 'n', 'c', 't', 'i', 'o', 'n', ' '],
        Seq::empty(),
    )
}

/// A line without `[[`, `]]` and `function ` is left as it is.
pub proof fn law_bash_plain_line_unchanged(s: Seq<char>)
    requires
        !contains(s, seq!['[', '[']),
        !contains(s, seq![']', ']']),
        !contains(s, seq!['f', 'u', 'n', 'c', 't', 'i', 'o', 'n', ' ']),
    ensures
        bash_translation(s) == s,
{
    lemma_replace_all_absent(s, seq!['[', '['], seq!['[']);
    lemma_replace_all_absent(s, seq![']', ']'], seq![']']);
    lemma_replace_all_absent(s, seq!['f', 'u', 'n', 'c', 't', 'i', 'o', 'n', ' '], Seq::empty());
}

/// Rewrites Bash syntax: `[[ ]]` conditionals become `[ ]`, and
/// `function name()` becomes `name()`.
pub fn translate(input: &str) -> (r: String)
    ensures
        r@ == bash_translation(input@),
{
    proof {
        reveal_strlit("[[");
        reveal_strlit("[");
        reveal_strlit("]]");
        reveal_strlit("]");
        reveal_strlit("function ");
        reveal_strlit("");
        assert("[["@ =~= seq!['[', '[']);
        assert("["@ =~= seq!['[']);
        assert("]]"@ =~= seq![']', ']']);
        assert("]"@ =~= seq![']']);
        assert("function "@ =~= seq!['f', 'u', 'n', 'c', 't', 'i', 'o', 'n', ' ']);
        assert(""@ =~= Seq::<char>::empty());
    }
    let mut translated = replace_text(input, "[[", "[");
    translated = replace_text(translated.as_str(), "]]", "]");
    translated = replace_text(translated.as_str(), "function ", "");
    translated
}

} // verus!
