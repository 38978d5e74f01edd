//! Here-documents: `command << DELIMITER` followed by lines up to the delimiter.
use vstd::prelude::*;

use crate::text::{
    chars_of, find, find_exec, first_word, first_word_chars, slice_chars, string_of,
    trim, trim_back, trim_chars, trim_end_chars, chars_eq, trim_front, is_white_space, prefix_len,
    lemma_prefix_len_bound,
};

verus! {

/// The command before the first `<<` and the first word after it, both
/// without surrounding white space; `None` when there is no `<<` or no word
/// after it.
pub open spec fn heredoc_parts(s: Seq<char>) -> Option<(Seq<char>, Seq<char>)> {
    match find(s, seq!['<', '<']) {
        Some(pos) => match first_word(trim(s.skip(pos + 2))) {
            Some(delimiter) => Some((trim(s.take(pos)), delimiter)),
            None => None,
        },
        None => None,
    }
}

/// Detects a here-document (`cat << EOF`) and returns the command (`cat`)
/// and the delimiter (`EOF`).
pub fn detect(input: &str) -> (r: Option<(String, String)>)
    ensures
        r matches Some((cmd, delim)) ==> heredoc_parts(input@) == Some((cmd@, delim@)),
        r is None ==> heredoc_parts(input@) is None,
{
    let s = chars_of(input);
    let mut op: Vec<char> = Vec::new();
    op.push('<');
    op.push('<');
    assert(op@ =~= seq!['<', '<']);
    match find_exec(&s, &op) {
        Some(pos) => {
            proof {
                crate::text::lemma_find_from(s@, op@, 0);
            }
            let before = slice_chars(&s, 0, pos);
            let after = slice_chars(&s, pos + 2, s.len());
            assert(before@ =~= s@.take(pos as int));
            assert(after@ =~= s@.skip(pos + 2));
            let rest = trim_chars(&after);
            match first_word_chars(&rest) {
                Some(delimiter) => {
                    let cmd = trim_chars(&before);
                    Some((string_of(&cmd), string_of(&delimiter)))
                },
                None => None,
            }
        },
        None => None,
    }
}

/// One line typed into a here-document. A line equal to the delimiter once
/// trailing white space is removed ends the document (`true`, nothing is
/// added); any other line is added to the payload as it is.
pub fn accept_line(payload: &mut String, line: &str, delimiter: &str) -> (done: bool)
    ensures
        done == (trim_back(line@) == delimiter@),
        done ==> final(payload)@ == old(payload)@,
        !done ==> final(payload)@ == old(payload)@ + line@,
{
    let l = chars_of(line);
    let d = chars_of(delimiter);
    let t = trim_end_chars(&l);
    if chars_eq(&t, &d) {
        true
    } else {
        payload.append(line);
        false
    }
}

/// After `trim_front`, the text is empty or starts with a character that is
/// not white space.
proof fn lemma_trim_front_start(s: Seq<char>)
    ensures
        trim_front(s).len() > 0 ==> !is_white_space(trim_front(s)[0]),
    decreases s.len(),
{
    if s.len() > 0 && is_white_space(s[0]) {
        lemma_trim_front_start(s.drop_first());
    }
}

/// The first word of a text is not empty and holds no white space.
proof fn lemma_first_word_shape(s: Seq<char>)
    ensures
        first_word(s) matches Some(w) ==> w.len() > 0 && forall|i: int|
            0 <= i < w.len() ==> !is_white_space(#[trigger] w[i]),
{
    let t = trim_front(s);
    if t.len() > 0 {
        lemma_trim_front_start(s);
        let p = |c: char| !is_white_space(c);
        lemma_prefix_len_bound(t, p);
        assert(prefix_len(t, p) >= 1) by {
            assert(p(t[0]));
            assert(t.drop_first().len() >= 0);
        }
        let w = t.take(prefix_len(t, p) as int);
        assert forall|i: int| 0 <= i < w.len() implies !is_white_space(#[trigger] w[i]) by {
            assert(w[i] == t[i]);
            assert(p(t[i]));
        }
    }
}

/// `trim_front` leaves nothing exactly when every character is white space.
proof fn lemma_trim_front_empty(s: Seq<char>)
    ensures
        (trim_front(s).len() == 0) == (forall|i: int| 0 <= i < s.len() ==> is_white_space(#[trigger] s[i])),
    decreases s.len(),
{
    if s.len() > 0 {
        if is_white_space(s[0]) {
            lemma_trim_front_empty(s.drop_first());
            if trim_front(s).len() == 0 {
                assert forall|i: int| 0 <= i < s.len() implies is_white_space(#[trigger] s[i]) by {
                    if i > 0 {
                        assert(s[i] == s.drop_first()[i - 1]);
                    }
                }
            } else {
                let j = choose|j: int| 0 <= j < s.drop_first().len() && !is_white_space(#[trigger] s.drop_first()[j]);
                assert(s[j + 1] == s.drop_first()[j]);
            }
        }
    }
}

/// `trim_back` keeps a prefix, and keeps at least the first character when
/// that is not white space.
proof fn lemma_trim_back_prefix(t: Seq<char>)
    ensures
        trim_back(t).len() <= t.len(),
        trim_back(t) =~= t.take(trim_back(t).len() as int),
        t.len() > 0 && !is_white_space(t[0]) ==> trim_back(t).len() > 0,
    decreases t.len(),
{
    if t.len() > 0 && is_white_space(t.last()) {
        lemma_trim_back_prefix(t.drop_last());
        let k = trim_back(t.drop_last()).len() as int;
        assert(t.drop_last().take(k) =~= t.take(k));
        if t.len() > 1 {
            assert(t.drop_last()[0] == t[0]);
        }
    }
}

/// A trimmed text has a first word exactly when it has a character that is
/// not white space.
proof fn lemma_first_word_exists(x: Seq<char>)
    ensures
        (first_word(trim(x)) is Some) == (exists|i: int| 0 <= i < x.len() && !is_white_space(#[trigger] x[i])),
{
    let t1 = trim_front(x);
    lemma_trim_front_empty(x);
    lemma_trim_front_start(x);
    let t2 = trim_back(t1);
    lemma_trim_back_prefix(t1);
    if t1.len() > 0 {
        assert(t2[0] == t1[0]);
        assert(trim_front(t2) == t2);
        let j = choose|j: int| 0 <= j < x.len() && !is_white_space(#[trigger] x[j]);
        assert(!is_white_space(x[j]));
    } else {
        assert(t2.len() == 0);
        assert(trim_front(t2) =~= t2);
        if exists|i: int| 0 <= i < x.len() && !is_white_space(#[trigger] x[i]) {
            let i = choose|i: int| 0 <= i < x.len() && !is_white_space(#[trigger] x[i]);
            assert(is_white_space(x[i]));
        }
    }
}

/// A here-document is found exactly when `<<` occurs and a character that
/// is not white space follows the first `<<`; its delimiter is one word: it
/// is not empty and holds no white space.
pub proof fn law_delimiter_is_one_word(s: Seq<char>)
    ensures
        (heredoc_parts(s) is Some) == (find(s, seq!['<', '<']) matches Some(p) && exists|i: int|
            p + 2 <= i < s.len() && !is_white_space(#[trigger] s[i])),
        heredoc_parts(s) matches Some((cmd, delim)) ==> delim.len() > 0 && forall|i: int|
            0 <= i < delim.len() ==> !is_white_space(#[trigger] delim[i]),
{
    match find(s, seq!['<', '<']) {
        Some(pos) => {
            crate::text::lemma_find_from(s, seq!['<', '<'], 0);
            let x = s.skip(pos + 2);
            lemma_first_word_shape(trim(x));
            lemma_first_word_exists(x);
            if exists|i: int| 0 <= i < x.len() && !is_white_space(#[trigger] x[i]) {
                let i = choose|i: int| 0 <= i < x.len() && !is_white_space(#[trigger] x[i]);
                assert(x[i] == s[pos + 2 + i]);
            }
            if exists|i: int| pos + 2 <= i < s.len() && !is_white_space(#[trigger] s[i]) {
                let i = choose|i: int| pos + 2 <= i < s.len() && !is_white_space(#[trigger] s[i]);
                assert(x[i - pos - 2] == s[i]);
            }
        },
        None => {},
    }
}

} // verus!
