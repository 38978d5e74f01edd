//! The lexer: turns a command line into tokens.
use vstd::prelude::*;

use crate::text::{chars_of, is_white_space, is_whitespace, join, lemma_prefix_len, lemma_prefix_len_bound, prefix_len, slice_chars, string_of};
use crate::token::{SpecToken, Token, token_text, token_views};

verus! {

/// The characters skipped between tokens.
pub open spec fn is_blank(c: char) -> bool {
    c == ' ' || c == '\t' || c == '\n' || c == '\r'
}

/// A character that can continue an unquoted word.
pub open spec fn is_word_char(c: char) -> bool {
    !(is_white_space(c) || c == '>' || c == '<' || c == '|' || c == '&' || c == '"' || c == '\'')
}

/// Predicate form of [`is_word_char`].
pub open spec fn word_pred() -> spec_fn(char) -> bool {
    |x: char| is_word_char(x)
}

/// The characters of a quoted word: anything but the closing quote `q`.
pub open spec fn quote_pred(q: char) -> spec_fn(char) -> bool {
    |x: char| x != q
}

/// Length of the word quoted by `s[0]`.
pub open spec fn quoted_len(s: Seq<char>) -> nat {
    prefix_len(s.drop_first(), quote_pred(s[0]))
}

/// Characters consumed by a quoted word: the quotes and the text between
/// them, or everything up to the end when the closing quote is missing.
pub open spec fn quoted_used(s: Seq<char>) -> int {
    if 1 + quoted_len(s) < s.len() {
        quoted_len(s) + 2int
    } else {
        s.len() as int
    }
}

/// Prepends a token to a lexing result.
pub open spec fn push_front(t: SpecToken, rest: Option<Seq<SpecToken>>) -> Option<Seq<SpecToken>> {
    match rest {
        Some(ts) => Some(seq![t] + ts),
        None => None,
    }
}

/// Prepends a token sequence to a lexing result.
pub open spec fn prepend(ts: Seq<SpecToken>, rest: Option<Seq<SpecToken>>) -> Option<Seq<SpecToken>> {
    match rest {
        Some(r) => Some(ts + r),
        None => None,
    }
}

/// The tokens of `s`, or `None` where the lexer makes no progress and never
/// returns: at a brace outside a word, and at a white-space character that is
/// not a space, tab, line feed or carriage return.
pub open spec fn lex(s: Seq<char>) -> Option<Seq<SpecToken>>
    decreases s.len(),
{
    if s.len() == 0 {
        Some(Seq::empty())
    } else {
        let c = s[0];
        if is_blank(c) {
            lex(s.drop_first())
        } else if c == '|' {
            if s.len() > 1 && s[1] == '|' {
                push_front(SpecToken::Or, lex(s.skip(2)))
            } else {
                push_front(SpecToken::Pipe, lex(s.drop_first()))
            }
        } else if c == '&' {
            if s.len() > 1 && s[1] == '&' {
                push_front(SpecToken::And, lex(s.skip(2)))
            } else {
                push_front(SpecToken::Background, lex(s.drop_first()))
            }
        } else if c == '>' {
            push_front(SpecToken::RedirectOut, lex(s.drop_first()))
        } else if c == '<' {
            push_front(SpecToken::RedirectIn, lex(s.drop_first()))
        } else if c == '"' || c == '\'' {
            proof {
                lemma_prefix_len_bound(s.drop_first(), quote_pred(c));
            }
            push_front(
                SpecToken::Word(s.drop_first().take(quoted_len(s) as int)),
                lex(s.skip(quoted_used(s))),
            )
        } else if c == '{' || c == '}' {
            None
        } else {
            let n = prefix_len(s, word_pred());
            proof {
                lemma_prefix_len_bound(s, word_pred());
            }
            if n == 0 {
                None
            } else {
                push_front(SpecToken::Word(s.take(n as int)), lex(s.skip(n as int)))
            }
        }
    }
}

/// Quoted text is one word, spaces and operators included: a quote, text
/// without that quote, and the closing quote give one `Word` of that text.
pub proof fn law_quoted_text_is_one_word(q: char, body: Seq<char>, rest: Seq<char>)
    requires
        q == '"' || q == '\'',
        forall|i: int| 0 <= i < body.len() ==> #[trigger] body[i] != q,
    ensures
        lex(seq![q] + body + seq![q] + rest) == push_front(SpecToken::Word(body), lex(rest)),
{
    let s = seq![q] + body + seq![q] + rest;
    let t = s.drop_first();
    assert(t =~= body + seq![q] + rest);
    assert forall|k: int| 0 <= k < body.len() implies #[trigger] quote_pred(q)(t[k]) by {
        assert(t[k] == body[k]);
    }
    assert(t[body.len() as int] == q);
    lemma_prefix_len(t, quote_pred(q), body.len() as int);
    assert(t.take(body.len() as int) =~= body);
    assert(s.skip(body.len() + 2int) =~= rest);
}

/// `||` and `&&` are one token each; a single `|` or `&` is another token.
pub proof fn law_operator_tokens(rest: Seq<char>)
    ensures
        lex(seq!['|', '|'] + rest) == push_front(SpecToken::Or, lex(rest)),
        lex(seq!['&', '&'] + rest) == push_front(SpecToken::And, lex(rest)),
        (rest.len() == 0 || rest[0] != '|') ==> lex(seq!['|'] + rest) == push_front(
            SpecToken::Pipe,
            lex(rest),
        ),
        (rest.len() == 0 || rest[0] != '&') ==> lex(seq!['&'] + rest) == push_front(
            SpecToken::Background,
            lex(rest),
        ),
{
    assert((seq!['|', '|'] + rest).skip(2) =~= rest);
    assert((seq!['&', '&'] + rest).skip(2) =~= rest);
    assert((seq!['|'] + rest).drop_first() =~= rest);
    assert((seq!['&'] + rest).drop_first() =~= rest);
    if rest.len() > 0 {
        assert((seq!['|'] + rest)[1] == rest[0]);
        assert((seq!['&'] + rest)[1] == rest[0]);
    }
}

/// Every `>` and `<` outside quotes is a token of its own, whatever follows
/// it: `>>` is two `RedirectOut` tokens, and a word right after the sign
/// starts a new token.
pub proof fn law_redirect_signs_stand_alone(rest: Seq<char>)
    ensures
        lex(seq!['>'] + rest) == push_front(SpecToken::RedirectOut, lex(rest)),
        lex(seq!['<'] + rest) == push_front(SpecToken::RedirectIn, lex(rest)),
        lex(seq!['>', '>'] + rest) == push_front(
            SpecToken::RedirectOut,
            push_front(SpecToken::RedirectOut, lex(rest)),
        ),
{
    assert((seq!['>'] + rest).drop_first() =~= rest);
    assert((seq!['<'] + rest).drop_first() =~= rest);
    let two = seq!['>', '>'] + rest;
    assert(two.drop_first() =~= seq!['>'] + rest);
}

/// A token that reads back as itself from its text: an operator, or a word
/// that is not empty and holds no white space, quote, brace or operator
/// character.
pub open spec fn relexable(t: SpecToken) -> bool {
    match t {
        SpecToken::Pipe | SpecToken::Or | SpecToken::And | SpecToken::Background
        | SpecToken::RedirectOut | SpecToken::RedirectIn => true,
        SpecToken::Word(w) => w.len() > 0 && forall|i: int|
            0 <= i < w.len() ==> is_word_char(#[trigger] w[i]) && w[i] != '{' && w[i] != '}',
        _ => false,
    }
}

/// The texts of a sequence of tokens.
pub open spec fn token_texts(ts: Seq<SpecToken>) -> Seq<Seq<char>> {
    ts.map_values(|t: SpecToken| token_text(t))
}

/// Joining a word in front of a non-empty list of words.
proof fn lemma_join_front(a: Seq<char>, rest: Seq<Seq<char>>, sep: Seq<char>)
    requires
        rest.len() > 0,
    ensures
        join(seq![a] + rest, sep) == a + sep + join(rest, sep),
    decreases rest.len(),
{
    let all = seq![a] + rest;
    assert(all.len() == rest.len() + 1);
    assert(all.last() == rest.last());
    assert(join(all, sep) == join(all.drop_last(), sep) + sep + all.last());
    if rest.len() == 1 {
        assert(all.drop_last() =~= seq![a]);
        assert(join(seq![a], sep) == a);
        assert(join(rest, sep) == rest[0]);
        assert(rest[0] == rest.last());
    } else {
        assert(all.drop_last() =~= seq![a] + rest.drop_last());
        lemma_join_front(a, rest.drop_last(), sep);
        assert(join(rest, sep) == join(rest.drop_last(), sep) + sep + rest.last());
        assert(a + sep + join(rest.drop_last(), sep) + sep + rest.last() =~= a + sep + (join(
            rest.drop_last(),
            sep,
        ) + sep + rest.last()));
    }
}

/// A re-lexable token's text followed by nothing or a blank lexes to that
/// token and then the rest.
proof fn lemma_lex_token(t: SpecToken, r: Seq<char>)
    requires
        relexable(t),
        r.len() == 0 || is_blank(r[0]),
    ensures
        lex(token_text(t) + r) == push_front(t, lex(r)),
{
    let s = token_text(t) + r;
    match t {
        SpecToken::Word(w) => {
            assert(s[0] == w[0]);
            assert(is_word_char(w[0]));
            let n = w.len() as int;
            assert forall|j: int| 0 <= j < n implies #[trigger] word_pred()(s[j]) by {
                assert(s[j] == w[j]);
            }
            if n < s.len() {
                assert(s[n] == r[0]);
            }
            lemma_prefix_len(s, word_pred(), n);
            assert(s.take(n) =~= w);
            assert(s.skip(n) =~= r);
        },
        SpecToken::Or | SpecToken::And => {
            assert(s.skip(2) =~= r);
        },
        _ => {
            assert(s.drop_first() =~= r);
            if s.len() > 1 {
                assert(s[1] == r[0]);
            }
        },
    }
}

/// Lexing the texts of re-lexable tokens, joined by spaces, gives the
/// tokens back.
pub proof fn law_relex_joined_texts(ts: Seq<SpecToken>)
    requires
        forall|i: int| 0 <= i < ts.len() ==> relexable(#[trigger] ts[i]),
    ensures
        lex(join(token_texts(ts), seq![' '])) == Some(ts),
    decreases ts.len(),
{
    let texts = token_texts(ts);
    if ts.len() == 0 {
        assert(texts.len() == 0);
    } else if ts.len() == 1 {
        assert(relexable(ts[0]));
        lemma_lex_token(ts[0], Seq::empty());
        assert(token_text(ts[0]) + Seq::<char>::empty() =~= texts[0]);
        assert(seq![ts[0]] + Seq::<SpecToken>::empty() =~= ts);
    } else {
        let rest = ts.drop_first();
        assert forall|i: int| 0 <= i < rest.len() implies relexable(#[trigger] rest[i]) by {
            assert(rest[i] == ts[i + 1]);
        }
        law_relex_joined_texts(rest);
        assert(texts =~= seq![token_text(ts[0])] + token_texts(rest));
        lemma_join_front(token_text(ts[0]), token_texts(rest), seq![' ']);
        let j = join(token_texts(rest), seq![' ']);
        let r = seq![' '] + j;
        assert(r.drop_first() =~= j);
        assert(lex(r) == lex(j));
        assert(relexable(ts[0]));
        lemma_lex_token(ts[0], r);
        assert(token_text(ts[0]) + seq![' '] + j =~= token_text(ts[0]) + r);
        assert(seq![ts[0]] + rest =~= ts);
    }
}

/// `s` without its white-space characters.
pub open spec fn strip_white(s: Seq<char>) -> Seq<char>
    decreases s.len(),
{
    if s.len() == 0 {
        Seq::empty()
    } else if is_white_space(s[0]) {
        strip_white(s.drop_first())
    } else {
        seq![s[0]] + strip_white(s.drop_first())
    }
}

/// The texts of a sequence of tokens, one after the other.
pub open spec fn concat_texts(ts: Seq<SpecToken>) -> Seq<char>
    decreases ts.len(),
{
    if ts.len() == 0 {
        Seq::empty()
    } else {
        token_text(ts[0]) + concat_texts(ts.drop_first())
    }
}

/// An operator token, or a word that is not empty.
pub open spec fn plain_token(t: SpecToken) -> bool {
    match t {
        SpecToken::Pipe | SpecToken::Or | SpecToken::And | SpecToken::Background
        | SpecToken::RedirectOut | SpecToken::RedirectIn => true,
        SpecToken::Word(w) => w.len() > 0,
        _ => false,
    }
}

/// Dropping a prefix without white space.
proof fn lemma_strip_prefix(s: Seq<char>, n: int)
    requires
        0 <= n <= s.len(),
        forall|j: int| 0 <= j < n ==> !is_white_space(#[trigger] s[j]),
    ensures
        strip_white(s) == s.take(n) + strip_white(s.skip(n)),
    decreases n,
{
    if n == 0 {
        assert(s.skip(0) =~= s);
        assert(s.take(0) + strip_white(s) =~= strip_white(s));
    } else {
        let t = s.drop_first();
        assert forall|j: int| 0 <= j < n - 1 implies !is_white_space(#[trigger] t[j]) by {
            assert(t[j] == s[j + 1]);
        }
        lemma_strip_prefix(t, n - 1);
        assert(t.skip(n - 1) =~= s.skip(n));
        assert(seq![s[0]] + (t.take(n - 1) + strip_white(s.skip(n))) =~= s.take(n) + strip_white(
            s.skip(n),
        ));
    }
}

/// Facts on a token put in front of a lexing result.
proof fn lemma_front(t: SpecToken, rest: Seq<SpecToken>)
    requires
        plain_token(t),
        forall|i: int| 0 <= i < rest.len() ==> plain_token(#[trigger] rest[i]),
    ensures
        concat_texts(seq![t] + rest) == token_text(t) + concat_texts(rest),
        forall|i: int| 0 <= i < rest.len() + 1 ==> plain_token(#[trigger] (seq![t] + rest)[i]),
{
    let all = seq![t] + rest;
    assert(all[0] == t);
    assert(all.drop_first() =~= rest);
    assert forall|i: int| 0 <= i < rest.len() + 1 implies plain_token(#[trigger] all[i]) by {
        if i > 0 {
            assert(all[i] == rest[i - 1]);
        }
    }
}

/// Without quotes, the tokens of a line that lexes are operators and
/// non-empty words whose texts, one after the other, are the line with its
/// white space removed: no character is lost or added. A line of white
/// space alone gives no tokens.
pub proof fn law_tokens_cover_text(s: Seq<char>)
    requires
        forall|i: int| 0 <= i < s.len() ==> #[trigger] s[i] != '"' && s[i] != '\'',
        lex(s) is Some,
    ensures
        lex(s) matches Some(ts) ==> concat_texts(ts) == strip_white(s) && (forall|i: int|
            0 <= i < ts.len() ==> plain_token(#[trigger] ts[i])) && (strip_white(s).len() == 0
            ==> ts.len() == 0),
    decreases s.len(),
{
    if s.len() > 0 {
        let c = s[0];
        let s1 = s.drop_first();
        assert forall|i: int| 0 <= i < s1.len() implies #[trigger] s1[i] != '"' && s1[i] != '\'' by {
            assert(s1[i] == s[i + 1]);
        }
        if is_blank(c) {
            law_tokens_cover_text(s1);
        } else if c == '|' || c == '&' {
            if s.len() > 1 && s[1] == c {
                let s2 = s.skip(2);
                assert(s2 =~= s1.drop_first());
                assert forall|i: int| 0 <= i < s2.len() implies #[trigger] s2[i] != '"' && s2[i]
                    != '\'' by {
                    assert(s2[i] == s[i + 2]);
                }
                law_tokens_cover_text(s2);
                let t = if c == '|' { SpecToken::Or } else { SpecToken::And };
                let rest = lex(s2)->0;
                lemma_front(t, rest);
                assert(strip_white(s1) == seq![c] + strip_white(s2));
                assert(token_text(t) + concat_texts(rest) =~= seq![c] + (seq![c] + concat_texts(rest)));
            } else {
                law_tokens_cover_text(s1);
                let t = if c == '|' { SpecToken::Pipe } else { SpecToken::Background };
                let rest = lex(s1)->0;
                lemma_front(t, rest);
                assert(token_text(t) =~= seq![c]);
            }
        } else if c == '>' || c == '<' {
            law_tokens_cover_text(s1);
            let t = if c == '>' { SpecToken::RedirectOut } else { SpecToken::RedirectIn };
            let rest = lex(s1)->0;
            lemma_front(t, rest);
            assert(token_text(t) =~= seq![c]);
        } else if c == '{' || c == '}' {
        } else {
            let n = prefix_len(s, word_pred());
            lemma_prefix_len_bound(s, word_pred());
            if n > 0 {
                let sn = s.skip(n as int);
                assert forall|i: int| 0 <= i < sn.len() implies #[trigger] sn[i] != '"' && sn[i]
                    != '\'' by {
                    assert(sn[i] == s[i + n]);
                }
                law_tokens_cover_text(sn);
                assert forall|j: int| 0 <= j < n implies !is_white_space(#[trigger] s[j]) by {
                    assert(word_pred()(s[j]));
                }
                lemma_strip_prefix(s, n as int);
                let t = SpecToken::Word(s.take(n as int));
                let rest = lex(sn)->0;
                lemma_front(t, rest);
            }
        }
    }
}

/// Splits a command line into tokens.
pub struct Lexer {
    input: Vec<char>,
    pos: usize,
}

impl Lexer {
    #[verifier::type_invariant]
    spec fn inv(self) -> bool {
        self.pos <= self.input.len()
    }

    /// The characters not yet read.
    pub closed spec fn rest(self) -> Seq<char> {
        self.input@.skip(self.pos as int)
    }

    pub fn new(input: &str) -> (r: Lexer)
        ensures
            r.rest() == input@,
    {
        let v = chars_of(input);
        let r = Lexer { input: v, pos: 0 };
        assert(r.input@.skip(0) =~= input@);
        r
    }

    /// `c` continues an unquoted word.
    fn is_word_char_exec(c: char) -> (r: bool)
        ensures
            r == is_word_char(c),
    {
        !(is_whitespace(c) || c == '>' || c == '<' || c == '|' || c == '&' || c == '"' || c
            == '\'')
    }

    /// Reads the remaining input as tokens. Returns `None` exactly where
    /// `tokenize` would never return (see [`lex`]).
    pub fn try_tokenize(&mut self) -> (r: Option<Vec<Token>>)
        ensures
            r is Some <==> lex(old(self).rest()) is Some,
            r matches Some(ts) ==> Some(token_views(ts@)) == lex(old(self).rest())
                && final(self).rest().len() == 0,
    {
        proof {
            use_type_invariant(&*self);
        }
        let ghost orig = self.rest();
        let mut tokens: Vec<Token> = Vec::new();
        assert(prepend(token_views(tokens@), lex(orig)) =~= lex(orig)) by {
            if let Some(x) = lex(orig) {
                assert(token_views(tokens@) + x =~= x);
            }
        }
        while self.pos < self.input.len()
            invariant
                self.pos <= self.input.len(),
                orig == old(self).rest(),
                lex(orig) == prepend(token_views(tokens@), lex(self.rest())),
            decreases self.input.len() - self.pos,
        {
            proof {
                use_type_invariant(&*self);
            }
            let ghost s = self.rest();
            let ghost before = token_views(tokens@);
            let pos = self.pos;
            let c = self.input[pos];
            assert(s[0] == c);
            assert(s.drop_first() =~= self.input@.skip(pos + 1));
            if c == ' ' || c == '\t' || c == '\n' || c == '\r' {
                self.pos = pos + 1;
            } else if c == '|' || c == '&' {
                let double = pos + 1 < self.input.len() && self.input[pos + 1] == c;
                if double {
                    assert(s[1] == self.input@[pos + 1]);
                    assert(s.skip(2) =~= self.input@.skip(pos + 2));
                    self.pos = pos + 2;
                    tokens.push(
                        if c == '|' {
                            Token::Or
                        } else {
                            Token::And
                        },
                    );
                } else {
                    if pos + 1 < self.input.len() {
                        assert(s[1] == self.input@[pos + 1]);
                    }
                    self.pos = pos + 1;
                    tokens.push(
                        if c == '|' {
                            Token::Pipe
                        } else {
                            Token::Background
                        },
                    );
                }
            } else if c == '>' {
                self.pos = pos + 1;
                tokens.push(Token::RedirectOut);
            } else if c == '<' {
                self.pos = pos + 1;
                tokens.push(Token::RedirectIn);
            } else if c == '"' || c == '\'' {
                let start = pos + 1;
                let mut j = start;
                while j < self.input.len() && self.input[j] != c
                    invariant
                        start <= j <= self.input.len(),
                        forall|k: int| start <= k < j ==> self.input@[k] != c,
                    decreases self.input.len() - j,
                {
                    j = j + 1;
                }
                let word = slice_chars(&self.input, start, j);
                proof {
                    let t = s.drop_first();
                    assert forall|k: int| 0 <= k < j - start implies #[trigger] quote_pred(c)(
                        t[k],
                    ) by {
                        assert(t[k] == self.input@[start + k]);
                    }
                    if j < self.input.len() {
                        assert(t[j - start] == self.input@[j as int]);
                    }
                    lemma_prefix_len(t, quote_pred(c), j - start);
                    assert(t.take(j - start) =~= word@);
                }
                if j < self.input.len() {
                    self.pos = j + 1;
                } else {
                    self.pos = j;
                }
                assert(s.skip(quoted_used(s)) =~= self.input@.skip(self.pos as int));
                tokens.push(Token::Word(string_of(&word)));
            } else if c == '{' || c == '}' {
                assert(lex(s) is None);
                return None;
            } else {
                let mut j = pos;
                while j < self.input.len() && Self::is_word_char_exec(self.input[j])
                    invariant
                        pos <= j <= self.input.len(),
                        forall|k: int| pos <= k < j ==> is_word_char(#[trigger] self.input@[k]),
                    decreases self.input.len() - j,
                {
                    j = j + 1;
                }
                proof {
                    assert forall|k: int| 0 <= k < j - pos implies #[trigger] word_pred()(
                        s[k],
                    ) by {
                        assert(s[k] == self.input@[pos + k]);
                    }
                    if j < self.input.len() {
                        assert(s[j - pos] == self.input@[j as int]);
                    }
                    lemma_prefix_len(s, word_pred(), j - pos);
                }
                if j == pos {
                    assert(lex(s) is None);
                    return None;
                }
                let word = slice_chars(&self.input, pos, j);
                assert(s.take(j - pos) =~= word@);
                assert(s.skip(j - pos) =~= self.input@.skip(j as int));
                self.pos = j;
                tokens.push(Token::Word(string_of(&word)));
            }
            proof {
                let after = token_views(tokens@);
                if after.len() > before.len() {
                    assert(after =~= before + seq![after.last()]);
                    if let Some(x) = lex(self.rest()) {
                        assert(before + (seq![after.last()] + x) =~= after + x);
                    }
                } else {
                    assert(after =~= before);
                }
            }
        }
        assert(self.rest() =~= Seq::<char>::empty());
        assert(token_views(tokens@) + Seq::<SpecToken>::empty() =~= token_views(tokens@));
        Some(tokens)
    }

    /// Reads the remaining input as tokens.
    pub fn tokenize(&mut self) -> (tokens: Vec<Token>)
        requires
            lex(old(self).rest()) is Some,
        ensures
            Some(token_views(tokens@)) == lex(old(self).rest()),
            final(self).rest().len() == 0,
    {
        match self.try_tokenize() {
            Some(ts) => ts,
            None => Vec::new(),
        }
    }
}

} // verus!
