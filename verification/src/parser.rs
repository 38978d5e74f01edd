//! The parser: turns tokens into statements.
//!
//! The grammar is given below as recursive functions over the token sequence
//! and a cursor. Each returns the parsed value with the cursor after it, or
//! `None` where parsing cannot continue because a `for` keyword is the last
//! token (the keyword is read and then its loop variable, which is missing).
use vstd::prelude::*;

use crate::ast::{
    Command, Condition, Executable, SpecCommand, SpecExecutable, SpecStatement, Statement,
    branches_view, command_views, executable_views, lemma_branches_view_push,
    lemma_statements_view_push, statements_view,
};
use crate::text::{append_chars, chars_of, string_of, text_eq, trim, trim_chars, views};
use crate::token::{SpecToken, Token, token_text, token_views};

verus! {

// ---------------------------------------------------------------------------
// Grammar
// ---------------------------------------------------------------------------

pub open spec fn kw_if() -> Seq<char> {
    seq!['i', 'f']
}

pub open spec fn kw_elif() -> Seq<char> {
    seq!['e', 'l', 'i', 'f']
}

pub open spec fn kw_else() -> Seq<char> {
    seq!['e', 'l', 's', 'e']
}

pub open spec fn kw_while() -> Seq<char> {
    seq!['w', 'h', 'i', 'l', 'e']
}

pub open spec fn kw_for() -> Seq<char> {
    seq!['f', 'o', 'r']
}

pub open spec fn kw_in() -> Seq<char> {
    seq!['i', 'n']
}

/// `t` is the word `k` (a string literal token is not a keyword).
pub open spec fn is_keyword(t: SpecToken, k: Seq<char>) -> bool {
    t matches SpecToken::Word(w) && w == k
}

/// The text of a word or string literal token.
pub open spec fn word_of(t: SpecToken) -> Option<Seq<char>> {
    match t {
        SpecToken::Word(w) => Some(w),
        SpecToken::StringLiteral(w) => Some(w),
        _ => None,
    }
}

/// The first index `>= c` that holds `{`, or the end.
pub open spec fn cond_end(ts: Seq<SpecToken>, c: int) -> int
    decreases ts.len() - c,
{
    if c >= ts.len() || ts[c] is LBrace {
        c
    } else {
        cond_end(ts, c + 1)
    }
}

/// The texts of the tokens from `c` up to the next `{`, each followed by a space.
pub open spec fn cond_text(ts: Seq<SpecToken>, c: int) -> Seq<char>
    decreases ts.len() - c,
{
    if c >= ts.len() || ts[c] is LBrace {
        Seq::empty()
    } else {
        token_text(ts[c]) + seq![' '] + cond_text(ts, c + 1)
    }
}

/// The texts of the tokens from `c` up to the next `{`.
pub open spec fn values_from(ts: Seq<SpecToken>, c: int) -> Seq<Seq<char>>
    decreases ts.len() - c,
{
    if c >= ts.len() || ts[c] is LBrace {
        Seq::empty()
    } else {
        seq![token_text(ts[c])] + values_from(ts, c + 1)
    }
}

/// The condition of an `if`, `elif` or `while` that starts at `c`.
pub open spec fn condition_at(ts: Seq<SpecToken>, c: int) -> Seq<char> {
    trim(cond_text(ts, c))
}

/// A word added to the command being built: the first word names the program.
pub open spec fn add_word(current: Option<SpecCommand>, w: Seq<char>) -> SpecCommand {
    match current {
        Some(cmd) => SpecCommand { args: cmd.args.push(w), ..cmd },
        None => SpecCommand { program: w, args: Seq::empty(), outfile: None },
    }
}

/// `> file` applied to the command being built.
pub open spec fn set_outfile(current: Option<SpecCommand>, f: Seq<char>) -> Option<SpecCommand> {
    match current {
        Some(cmd) => Some(SpecCommand { outfile: Some(f), ..cmd }),
        None => None,
    }
}

/// Scans the words, pipes and redirections of one command or pipeline from
/// `c`. Returns the finished commands, the command being built, and where
/// the scan stopped: at the end, or at `&&`, `||`, `}` or a newline.
pub open spec fn pipe_scan(
    ts: Seq<SpecToken>,
    c: int,
    pipeline: Seq<SpecCommand>,
    current: Option<SpecCommand>,
) -> (Seq<SpecCommand>, Option<SpecCommand>, int)
    decreases ts.len() - c,
{
    if c < 0 || c >= ts.len() {
        (pipeline, current, c)
    } else {
        match word_of(ts[c]) {
            Some(w) => pipe_scan(ts, c + 1, pipeline, Some(add_word(current, w))),
            None => match ts[c] {
                SpecToken::Pipe => match current {
                    Some(cmd) => pipe_scan(ts, c + 1, pipeline.push(cmd), None),
                    None => pipe_scan(ts, c + 1, pipeline, None),
                },
                SpecToken::RedirectOut => {
                    if c + 1 < ts.len() && word_of(ts[c + 1]) is Some {
                        pipe_scan(ts, c + 2, pipeline, set_outfile(current, word_of(ts[c + 1])->0))
                    } else {
                        pipe_scan(ts, c + 1, pipeline, current)
                    }
                },
                SpecToken::And => (pipeline, current, c),
                SpecToken::Or => (pipeline, current, c),
                SpecToken::RBrace => (pipeline, current, c),
                SpecToken::Newline => (pipeline, current, c),
                _ => pipe_scan(ts, c + 1, pipeline, current),
            },
        }
    }
}

/// The statement made of a list of commands: nothing, one command, or a pipeline.
pub open spec fn pipeline_statement(all: Seq<SpecCommand>) -> Option<SpecStatement> {
    if all.len() == 0 {
        None
    } else if all.len() == 1 {
        Some(SpecStatement::Command(all[0]))
    } else {
        Some(SpecStatement::Pipeline(all))
    }
}

/// A command or pipeline starting at `c`.
pub open spec fn p_pipeline(ts: Seq<SpecToken>, c: int) -> (Option<SpecStatement>, int) {
    let (pl, cur, c2) = pipe_scan(ts, c, Seq::empty(), None);
    let all = match cur {
        Some(cmd) => pl.push(cmd),
        None => pl,
    };
    (pipeline_statement(all), c2)
}

/// A statement starting at `c`, or nothing (`Some((None, _))`).
pub open spec fn p_statement(ts: Seq<SpecToken>, c: int) -> Option<(Option<SpecStatement>, int)>
    decreases ts.len() + 2 - c, 1int,
{
    if c < 0 || c >= ts.len() {
        Some((None, c))
    } else if is_keyword(ts[c], kw_if()) {
        match p_if(ts, c) {
            Some((st, c2)) => Some((Some(st), c2)),
            None => None,
        }
    } else if is_keyword(ts[c], kw_while()) {
        match p_while(ts, c) {
            Some((st, c2)) => Some((Some(st), c2)),
            None => None,
        }
    } else if is_keyword(ts[c], kw_for()) {
        match p_for(ts, c) {
            Some((st, c2)) => Some((Some(st), c2)),
            None => None,
        }
    } else {
        Some(p_pipeline(ts, c))
    }
}

/// `if cond { ... } elif cond { ... } else { ... }` starting at the `if` at `c`.
pub open spec fn p_if(ts: Seq<SpecToken>, c: int) -> Option<(SpecStatement, int)>
    decreases ts.len() + 2 - c, 0int,
{
    if c < 0 || c >= ts.len() {
        None
    } else {
        let c2 = cond_end(ts, c + 1);
        proof {
            lemma_cond_end(ts, c + 1);
        }
        match p_block(ts, c2) {
            None => None,
            Some((body, c3)) => {
                if c2 <= c3 <= ts.len() + 1 {
                    match p_if_tail(ts, c3, Seq::empty()) {
                        None => None,
                        Some((else_if, else_body, c4)) => Some(
                            (
                                SpecStatement::If {
                                    condition: condition_at(ts, c + 1),
                                    body,
                                    else_if,
                                    else_body,
                                },
                                c4,
                            ),
                        ),
                    }
                } else {
                    None
                }
            },
        }
    }
}

/// The `elif` and `else` branches that follow an `if` block at `c`.
pub open spec fn p_if_tail(
    ts: Seq<SpecToken>,
    c: int,
    else_if: Seq<(Seq<char>, Seq<SpecStatement>)>,
) -> Option<(Seq<(Seq<char>, Seq<SpecStatement>)>, Option<Seq<SpecStatement>>, int)>
    decreases ts.len() + 2 - c, 0int,
{
    if c < 0 || c >= ts.len() {
        Some((else_if, None, c))
    } else if is_keyword(ts[c], kw_elif()) {
        let c2 = cond_end(ts, c + 1);
        proof {
            lemma_cond_end(ts, c + 1);
        }
        match p_block(ts, c2) {
            None => None,
            Some((body, c3)) => {
                if c2 <= c3 <= ts.len() + 1 {
                    p_if_tail(ts, c3, else_if.push((condition_at(ts, c + 1), body)))
                } else {
                    None
                }
            },
        }
    } else if is_keyword(ts[c], kw_else()) {
        match p_block(ts, c + 1) {
            None => None,
            Some((body, c2)) => Some((else_if, Some(body), c2)),
        }
    } else {
        Some((else_if, None, c))
    }
}

/// `while cond { ... }` starting at the `while` at `c`.
pub open spec fn p_while(ts: Seq<SpecToken>, c: int) -> Option<(SpecStatement, int)>
    decreases ts.len() + 2 - c, 0int,
{
    if c < 0 || c >= ts.len() {
        None
    } else {
        let c2 = cond_end(ts, c + 1);
        proof {
            lemma_cond_end(ts, c + 1);
        }
        match p_block(ts, c2) {
            None => None,
            Some((body, c3)) => Some(
                (SpecStatement::While { condition: condition_at(ts, c + 1), body }, c3),
            ),
        }
    }
}

/// `for var in values { ... }` starting at the `for` at `c`; `None` when
/// the `for` is the last token.
pub open spec fn p_for(ts: Seq<SpecToken>, c: int) -> Option<(SpecStatement, int)>
    decreases ts.len() + 2 - c, 0int,
{
    if c < 0 || c + 1 >= ts.len() {
        None
    } else {
        let c1 = c + 1;
        let (variable, c2) = match ts[c1] {
            SpecToken::Word(w) => (w, c1 + 1),
            _ => (Seq::empty(), c1),
        };
        let c3 = if c2 < ts.len() && is_keyword(ts[c2], kw_in()) {
            c2 + 1
        } else {
            c2
        };
        let c4 = cond_end(ts, c3);
        proof {
            lemma_cond_end(ts, c3);
        }
        match p_block(ts, c4) {
            None => None,
            Some((body, c5)) => Some(
                (SpecStatement::For { variable, values: values_from(ts, c3), body }, c5),
            ),
        }
    }
}

/// A `{ ... }` block at `c`; an empty block when `c` holds no `{`.
pub open spec fn p_block(ts: Seq<SpecToken>, c: int) -> Option<(Seq<SpecStatement>, int)>
    decreases ts.len() + 2 - c, 0int,
{
    if 0 <= c < ts.len() && ts[c] is LBrace {
        p_items(ts, c + 1, Seq::empty())
    } else {
        Some((Seq::empty(), c))
    }
}

/// The statements of a block from `c` up to its `}` (or the end).
pub open spec fn p_items(ts: Seq<SpecToken>, c: int, acc: Seq<SpecStatement>) -> Option<
    (Seq<SpecStatement>, int),
>
    decreases ts.len() + 2 - c, 2int,
{
    if c < 0 || c >= ts.len() {
        Some((acc, c))
    } else if ts[c] is RBrace {
        Some((acc, c + 1))
    } else {
        match p_statement(ts, c) {
            None => None,
            Some((Some(st), c2)) => {
                if c < c2 <= ts.len() + 1 {
                    p_items(ts, c2, acc.push(st))
                } else {
                    None
                }
            },
            Some((None, c2)) => {
                if c <= c2 <= ts.len() {
                    p_items(ts, c2 + 1, acc)
                } else {
                    None
                }
            },
        }
    }
}

/// The first index `>= c` that does not hold a newline.
pub open spec fn skip_newlines(ts: Seq<SpecToken>, c: int) -> int
    decreases ts.len() - c,
{
    if 0 <= c < ts.len() && ts[c] is Newline {
        skip_newlines(ts, c + 1)
    } else {
        c
    }
}

/// The statements of a whole token sequence from `c`, each with the
/// condition set by the `&&` or `||` before it.
pub open spec fn p_main(ts: Seq<SpecToken>, c: int, cond: Condition, acc: Seq<SpecExecutable>) -> Option<
    Seq<SpecExecutable>,
>
    decreases ts.len() + 2 - c,
{
    if c < 0 || c >= ts.len() {
        Some(acc)
    } else {
        let c1 = skip_newlines(ts, c);
        proof {
            lemma_skip_newlines(ts, c);
        }
        if c1 >= ts.len() {
            Some(acc)
        } else {
            match p_statement(ts, c1) {
                None => None,
                Some((st, c2)) => {
                    if c1 <= c2 <= ts.len() + 1 {
                        let acc2 = match st {
                            Some(s) => acc.push(SpecExecutable { statement: s, condition: cond }),
                            None => acc,
                        };
                        let c3 = if c2 == c1 {
                            c2 + 1
                        } else {
                            c2
                        };
                        if c3 < ts.len() {
                            match ts[c3] {
                                SpecToken::And => p_main(ts, c3 + 1, Condition::And, acc2),
                                SpecToken::Or => p_main(ts, c3 + 1, Condition::Or, acc2),
                                _ => p_main(ts, c3, Condition::Always, acc2),
                            }
                        } else {
                            Some(acc2)
                        }
                    } else {
                        None
                    }
                },
            }
        }
    }
}

/// The statements of a whole token sequence.
pub open spec fn parse_tokens(ts: Seq<SpecToken>) -> Option<Seq<SpecExecutable>> {
    p_main(ts, 0, Condition::Always, Seq::empty())
}

pub proof fn lemma_cond_end(ts: Seq<SpecToken>, c: int)
    ensures
        c <= cond_end(ts, c),
        c <= ts.len() ==> cond_end(ts, c) <= ts.len(),
    decreases ts.len() - c,
{
    if !(c >= ts.len() || ts[c] is LBrace) {
        lemma_cond_end(ts, c + 1);
    }
}

pub proof fn lemma_skip_newlines(ts: Seq<SpecToken>, c: int)
    ensures
        c <= skip_newlines(ts, c),
        c <= ts.len() ==> skip_newlines(ts, c) <= ts.len(),
    decreases ts.len() - c,
{
    if 0 <= c < ts.len() && ts[c] is Newline {
        lemma_skip_newlines(ts, c + 1);
    }
}

pub proof fn lemma_pipe_scan(
    ts: Seq<SpecToken>,
    c: int,
    pipeline: Seq<SpecCommand>,
    current: Option<SpecCommand>,
)
    requires
        0 <= c,
    ensures
        c <= pipe_scan(ts, c, pipeline, current).2,
        c <= ts.len() ==> pipe_scan(ts, c, pipeline, current).2 <= ts.len(),
    decreases ts.len() - c,
{
    if c < ts.len() {
        match word_of(ts[c]) {
            Some(w) => lemma_pipe_scan(ts, c + 1, pipeline, Some(add_word(current, w))),
            None => match ts[c] {
                SpecToken::Pipe => match current {
                    Some(cmd) => lemma_pipe_scan(ts, c + 1, pipeline.push(cmd), None),
                    None => lemma_pipe_scan(ts, c + 1, pipeline, None),
                },
                SpecToken::RedirectOut => {
                    if c + 1 < ts.len() && word_of(ts[c + 1]) is Some {
                        lemma_pipe_scan(
                            ts,
                            c + 2,
                            pipeline,
                            set_outfile(current, word_of(ts[c + 1])->0),
                        );
                    } else {
                        lemma_pipe_scan(ts, c + 1, pipeline, current);
                    }
                },
                SpecToken::And => {},
                SpecToken::Or => {},
                SpecToken::RBrace => {},
                SpecToken::Newline => {},
                _ => lemma_pipe_scan(ts, c + 1, pipeline, current),
            },
        }
    }
}

// ---------------------------------------------------------------------------
// The parser
// ---------------------------------------------------------------------------

/// Parsing cannot continue: a `for` keyword is the last token.
struct ParseFault;

/// The view of an optional statement.
pub open spec fn opt_statement_view(o: Option<Statement>) -> Option<SpecStatement> {
    match o {
        Some(s) => Some(s@),
        None => None,
    }
}

/// The view of an optional command.
pub open spec fn opt_command_view(o: Option<Command>) -> Option<SpecCommand> {
    match o {
        Some(c) => Some(c@),
        None => None,
    }
}

/// Builds statements from a token sequence, reading it with a cursor.
pub struct Parser {
    tokens: Vec<Token>,
    cursor: usize,
}

impl Parser {
    #[verifier::type_invariant]
    spec fn inv(self) -> bool {
        &&& self.tokens.len() < usize::MAX
        &&& self.cursor <= self.tokens.len() + 1
    }

    /// The tokens being parsed.
    pub closed spec fn tokens_view(self) -> Seq<SpecToken> {
        token_views(self.tokens@)
    }

    /// The cursor.
    pub closed spec fn position(self) -> int {
        self.cursor as int
    }

    pub fn new(tokens: Vec<Token>) -> (r: Self)
        requires
            tokens.len() < usize::MAX,
        ensures
            r.tokens_view() == token_views(tokens@),
            r.position() == 0,
    {
        Self { tokens, cursor: 0 }
    }

    fn is_lbrace(&self, i: usize) -> (r: bool)
        requires
            i < self.tokens.len(),
        ensures
            r == (self.tokens_view()[i as int] is LBrace),
    {
        match &self.tokens[i] {
            Token::LBrace => true,
            _ => false,
        }
    }

    fn is_newline(&self, i: usize) -> (r: bool)
        requires
            i < self.tokens.len(),
        ensures
            r == (self.tokens_view()[i as int] is Newline),
    {
        match &self.tokens[i] {
            Token::Newline => true,
            _ => false,
        }
    }

    fn keyword_if(t: &Token) -> (r: bool)
        ensures
            r == is_keyword(t@, kw_if()),
    {
        match t {
            Token::Word(w) => {
                proof {
                    reveal_strlit("if");
                    assert("if"@ =~= kw_if());
                }
                text_eq(w.as_str(), "if")
            },
            _ => false,
        }
    }

    fn keyword_elif(t: &Token) -> (r: bool)
        ensures
            r == is_keyword(t@, kw_elif()),
    {
        match t {
            Token::Word(w) => {
                proof {
                    reveal_strlit("elif");
                    assert("elif"@ =~= kw_elif());
                }
                text_eq(w.as_str(), "elif")
            },
            _ => false,
        }
    }

    fn keyword_else(t: &Token) -> (r: bool)
        ensures
            r == is_keyword(t@, kw_else()),
    {
        match t {
            Token::Word(w) => {
                proof {
                    reveal_strlit("else");
                    assert("else"@ =~= kw_else());
                }
                text_eq(w.as_str(), "else")
            },
            _ => false,
        }
    }

    fn keyword_while(t: &Token) -> (r: bool)
        ensures
            r == is_keyword(t@, kw_while()),
    {
        match t {
            Token::Word(w) => {
                proof {
                    reveal_strlit("while");
                    assert("while"@ =~= kw_while());
                }
                text_eq(w.as_str(), "while")
            },
            _ => false,
        }
    }

    fn keyword_for(t: &Token) -> (r: bool)
        ensures
            r == is_keyword(t@, kw_for()),
    {
        match t {
            Token::Word(w) => {
                proof {
                    reveal_strlit("for");
                    assert("for"@ =~= kw_for());
                }
                text_eq(w.as_str(), "for")
            },
            _ => false,
        }
    }

    fn keyword_in(t: &Token) -> (r: bool)
        ensures
            r == is_keyword(t@, kw_in()),
    {
        match t {
            Token::Word(w) => {
                proof {
                    reveal_strlit("in");
                    assert("in"@ =~= kw_in());
                }
                text_eq(w.as_str(), "in")
            },
            _ => false,
        }
    }

    /// Reads the condition of an `if`, `elif` or `while`: the texts of the
    /// tokens up to the next `{`, joined by spaces.
    fn parse_condition(&mut self) -> (r: String)
        ensures
            final(self).tokens@ == old(self).tokens@,
            final(self).cursor == cond_end(old(self).tokens_view(), old(self).cursor as int),
            r@ == condition_at(old(self).tokens_view(), old(self).cursor as int),
    {
        proof {
            use_type_invariant(&*self);
        }
        let ghost ts = self.tokens_view();
        let ghost c0 = self.cursor as int;
        let mut condition: Vec<char> = Vec::new();
        assert(condition@ + cond_text(ts, c0) =~= cond_text(ts, c0));
        while self.cursor < self.tokens.len() && !self.is_lbrace(self.cursor)
            invariant
                self.tokens@ == old(self).tokens@,
                ts == self.tokens_view(),
                self.tokens.len() < usize::MAX,
                c0 <= self.cursor <= self.tokens.len() + 1,
                cond_text(ts, c0) == condition@ + cond_text(ts, self.cursor as int),
                cond_end(ts, c0) == cond_end(ts, self.cursor as int),
            decreases self.tokens.len() + 1 - self.cursor,
        {
            let ghost before = condition@;
            let text = self.tokens[self.cursor].to_string();
            let piece = chars_of(text.as_str());
            append_chars(&mut condition, &piece);
            condition.push(' ');
            proof {
                let c = self.cursor as int;
                assert(ts[c] == self.tokens@[c]@);
                assert(cond_text(ts, c) == token_text(ts[c]) + seq![' '] + cond_text(ts, c + 1));
                assert(before + cond_text(ts, c) =~= condition@ + cond_text(ts, c + 1));
            }
            self.cursor = self.cursor + 1;
        }
        assert(cond_text(ts, self.cursor as int) =~= Seq::<char>::empty());
        assert(condition@ + Seq::<char>::empty() =~= condition@);
        let trimmed = trim_chars(&condition);
        string_of(&trimmed)
    }

    /// Reads a command or a pipeline.
    fn parse_pipeline_or_command(&mut self) -> (r: Option<Statement>)
        ensures
            final(self).tokens@ == old(self).tokens@,
            r is Some ==> old(self).cursor < final(self).cursor,
            (opt_statement_view(r), final(self).cursor as int) == p_pipeline(
                old(self).tokens_view(),
                old(self).cursor as int,
            ),
            old(self).cursor <= final(self).cursor,
            old(self).cursor <= old(self).tokens.len() ==> final(self).cursor <= old(self).tokens.len(),
    {
        proof {
            use_type_invariant(&*self);
        }
        let ghost ts = self.tokens_view();
        let ghost c0 = self.cursor as int;
        let mut pipeline: Vec<Command> = Vec::new();
        let mut current: Option<Command> = None;
        assert(command_views(pipeline@) =~= Seq::<SpecCommand>::empty());
        proof {
            lemma_pipe_scan(ts, c0, Seq::empty(), None);
        }
        while self.cursor < self.tokens.len()
            invariant
                self.tokens@ == old(self).tokens@,
                ts == self.tokens_view(),
                self.tokens.len() < usize::MAX,
                c0 <= self.cursor <= self.tokens.len() + 1,
                c0 <= self.tokens.len() ==> self.cursor <= self.tokens.len(),
                pipe_scan(ts, c0, Seq::empty(), None) == pipe_scan(
                    ts,
                    self.cursor as int,
                    command_views(pipeline@),
                    opt_command_view(current),
                ),
                (current is Some || pipeline.len() > 0) ==> c0 < self.cursor,
            ensures
                self.tokens@ == old(self).tokens@,
                ts == self.tokens_view(),
                c0 <= self.cursor <= self.tokens.len() + 1,
                c0 <= self.tokens.len() ==> self.cursor <= self.tokens.len(),
                pipe_scan(ts, c0, Seq::empty(), None) == (
                    command_views(pipeline@),
                    opt_command_view(current),
                    self.cursor as int,
                ),
                (current is Some || pipeline.len() > 0) ==> c0 < self.cursor,
            decreases self.tokens.len() - self.cursor,
        {
            let c = self.cursor;
            let ghost pv = command_views(pipeline@);
            let ghost cv = opt_command_view(current);
            proof {
                assert(ts[c as int] == self.tokens@[c as int]@);
            }
            match &self.tokens[c] {
                Token::Word(w) | Token::StringLiteral(w) => {
                    let w2 = w.clone();
                    current = match current {
                        Some(mut cmd) => {
                            let ghost before = cmd@;
                            cmd.args.push(w2);
                            assert(views(cmd.args@) =~= before.args.push(w@));
                            Some(cmd)
                        },
                        None => Some(Command::new(w2)),
                    };
                    self.cursor = c + 1;
                },
                Token::Pipe => {
                    match current {
                        Some(cmd) => {
                            pipeline.push(cmd);
                            assert(command_views(pipeline@) =~= pv.push(cv->0));
                        },
                        None => {},
                    }
                    current = None;
                    self.cursor = c + 1;
                },
                Token::RedirectOut => {
                    if c + 1 < self.tokens.len() {
                        proof {
                            assert(ts[c + 1] == self.tokens@[c + 1]@);
                        }
                        match &self.tokens[c + 1] {
                            Token::Word(f) | Token::StringLiteral(f) => {
                                let f2 = f.clone();
                                current = match current {
                                    Some(mut cmd) => {
                                        cmd.outfile = Some(f2);
                                        Some(cmd)
                                    },
                                    None => None,
                                };
                                self.cursor = c + 2;
                            },
                            _ => {
                                self.cursor = c + 1;
                            },
                        }
                    } else {
                        self.cursor = c + 1;
                    }
                },
                Token::And | Token::Or | Token::RBrace | Token::Newline => {
                    break ;
                },
                _ => {
                    self.cursor = c + 1;
                },
            }
        }
        match current {
            Some(cmd) => {
                let ghost pv = command_views(pipeline@);
                let ghost cv = cmd@;
                pipeline.push(cmd);
                assert(command_views(pipeline@) =~= pv.push(cv));
            },
            None => {},
        }
        if pipeline.len() == 0 {
            None
        } else if pipeline.len() == 1 {
            let ghost all = command_views(pipeline@);
            let cmd = pipeline.pop().unwrap();
            assert(cmd@ == all[0]);
            Some(Statement::Command(cmd))
        } else {
            Some(Statement::Pipeline(pipeline))
        }
    }

    /// Reads a statement: an `if`, `while` or `for` statement, or a command
    /// or pipeline.
    fn parse_statement(&mut self) -> (r: Result<Option<Statement>, ParseFault>)
        ensures
            final(self).tokens@ == old(self).tokens@,
            match p_statement(old(self).tokens_view(), old(self).cursor as int) {
                None => r is Err,
                Some((st, c)) => r matches Ok(o) && opt_statement_view(o) == st && final(self).cursor == c,
            },
            r is Ok ==> old(self).cursor <= final(self).cursor,
            r matches Ok(Some(_)) ==> old(self).cursor < final(self).cursor,
            r matches Ok(None) && old(self).cursor < old(self).tokens.len() ==> final(self).cursor <= old(self).tokens.len(),
        decreases old(self).tokens.len() + 2 - old(self).cursor, 1int,
    {
        proof {
            use_type_invariant(&*self);
        }
        let ghost ts = self.tokens_view();
        if self.cursor >= self.tokens.len() {
            return Ok(None);
        }
        let c = self.cursor;
        proof {
            assert(ts[c as int] == self.tokens@[c as int]@);
        }
        if Self::keyword_if(&self.tokens[c]) {
            let st = self.parse_if_statement()?;
            return Ok(Some(st));
        }
        if Self::keyword_while(&self.tokens[c]) {
            let st = self.parse_while_statement()?;
            return Ok(Some(st));
        }
        if Self::keyword_for(&self.tokens[c]) {
            let st = self.parse_for_statement()?;
            return Ok(Some(st));
        }
        Ok(self.parse_pipeline_or_command())
    }

    /// Reads an `if` statement with its `elif` and `else` branches.
    fn parse_if_statement(&mut self) -> (r: Result<Statement, ParseFault>)
        requires
            old(self).cursor < old(self).tokens.len(),
        ensures
            final(self).tokens@ == old(self).tokens@,
            match p_if(old(self).tokens_view(), old(self).cursor as int) {
                None => r is Err,
                Some((st, c)) => r matches Ok(s) && s@ == st && final(self).cursor == c,
            },
            r is Ok ==> old(self).cursor < final(self).cursor,
        decreases old(self).tokens.len() + 2 - old(self).cursor, 0int,
    {
        proof {
            use_type_invariant(&*self);
        }
        let ghost ts = self.tokens_view();
        let ghost c0 = self.cursor as int;
        self.cursor = self.cursor + 1;
        let condition = self.parse_condition();
        proof {
            lemma_cond_end(ts, c0 + 1);
        }
        let ghost c2 = self.cursor as int;
        let body = self.parse_block()?;
        let ghost c3 = self.cursor as int;
        proof {
            use_type_invariant(&*self);
        }
        let mut else_if: Vec<(String, Vec<Statement>)> = Vec::new();
        assert(branches_view(else_if@) =~= Seq::<(Seq<char>, Seq<SpecStatement>)>::empty());
        while self.cursor < self.tokens.len()
            invariant
                self.tokens@ == old(self).tokens@,
                ts == self.tokens_view(),
                self.tokens.len() < usize::MAX,
                c0 < self.cursor <= self.tokens.len() + 1,
                c0 == old(self).cursor,
                p_block(ts, c2) == Some((statements_view(body@), c3)),
                condition@ == condition_at(ts, c0 + 1),
                p_if(ts, c0) == match p_if_tail(ts, self.cursor as int, branches_view(else_if@)) {
                    None => None,
                    Some((ei, eb, c4)) => Some(
                        (
                            SpecStatement::If {
                                condition: condition_at(ts, c0 + 1),
                                body: statements_view(body@),
                                else_if: ei,
                                else_body: eb,
                            },
                            c4,
                        ),
                    ),
                },
            decreases self.tokens.len() + 1 - self.cursor,
        {
            let c = self.cursor;
            proof {
                assert(ts[c as int] == self.tokens@[c as int]@);
            }
            if Self::keyword_elif(&self.tokens[c]) {
                self.cursor = c + 1;
                let elif_cond = self.parse_condition();
                proof {
                    lemma_cond_end(ts, c + 1);
                }
                let elif_body = match self.parse_block() {
                    Ok(b) => b,
                    Err(e) => {
                        return Err(e);
                    },
                };
                proof {
                    use_type_invariant(&*self);
                }
                let ghost before = else_if@;
                let pair = (elif_cond, elif_body);
                proof {
                    lemma_branches_view_push(before, pair);
                }
                else_if.push(pair);
            } else if Self::keyword_else(&self.tokens[c]) {
                self.cursor = c + 1;
                let else_body = match self.parse_block() {
                    Ok(b) => b,
                    Err(e) => {
                        return Err(e);
                    },
                };
                return Ok(Statement::If { condition, body, else_if, else_body: Some(else_body) });
            } else {
                return Ok(Statement::If { condition, body, else_if, else_body: None });
            }
        }
        Ok(Statement::If { condition, body, else_if, else_body: None })
    }

    /// Reads a `while` statement.
    fn parse_while_statement(&mut self) -> (r: Result<Statement, ParseFault>)
        requires
            old(self).cursor < old(self).tokens.len(),
        ensures
            final(self).tokens@ == old(self).tokens@,
            match p_while(old(self).tokens_view(), old(self).cursor as int) {
                None => r is Err,
                Some((st, c)) => r matches Ok(s) && s@ == st && final(self).cursor == c,
            },
            r is Ok ==> old(self).cursor < final(self).cursor,
        decreases old(self).tokens.len() + 2 - old(self).cursor, 0int,
    {
        proof {
            use_type_invariant(&*self);
        }
        let ghost ts = self.tokens_view();
        let ghost c0 = self.cursor as int;
        self.cursor = self.cursor + 1;
        let condition = self.parse_condition();
        proof {
            lemma_cond_end(ts, c0 + 1);
        }
        let body = self.parse_block()?;
        Ok(Statement::While { condition, body })
    }

    /// Reads a `for` statement. Fails when the `for` is the last token.
    fn parse_for_statement(&mut self) -> (r: Result<Statement, ParseFault>)
        requires
            old(self).cursor < old(self).tokens.len(),
        ensures
            final(self).tokens@ == old(self).tokens@,
            match p_for(old(self).tokens_view(), old(self).cursor as int) {
                None => r is Err,
                Some((st, c)) => r matches Ok(s) && s@ == st && final(self).cursor == c,
            },
            r is Ok ==> old(self).cursor < final(self).cursor,
        decreases old(self).tokens.len() + 2 - old(self).cursor, 0int,
    {
        proof {
            use_type_invariant(&*self);
        }
        let ghost ts = self.tokens_view();
        let ghost c0 = self.cursor as int;
        self.cursor = self.cursor + 1;
        if self.cursor >= self.tokens.len() {
            return Err(ParseFault);
        }
        let c1 = self.cursor;
        proof {
            assert(ts[c1 as int] == self.tokens@[c1 as int]@);
        }
        let mut variable = String::new();
        match &self.tokens[c1] {
            Token::Word(w) => {
                variable = w.clone();
                self.cursor = c1 + 1;
            },
            _ => {},
        }
        let c2 = self.cursor;
        if c2 < self.tokens.len() {
            proof {
                assert(ts[c2 as int] == self.tokens@[c2 as int]@);
            }
            if Self::keyword_in(&self.tokens[c2]) {
                self.cursor = c2 + 1;
            }
        }
        let ghost c3 = self.cursor as int;
        let mut values: Vec<String> = Vec::new();
        assert(views(values@) + values_from(ts, c3) =~= values_from(ts, c3));
        while self.cursor < self.tokens.len() && !self.is_lbrace(self.cursor)
            invariant
                self.tokens@ == old(self).tokens@,
                ts == self.tokens_view(),
                self.tokens.len() < usize::MAX,
                c3 <= self.cursor <= self.tokens.len() + 1,
                values_from(ts, c3) == views(values@) + values_from(ts, self.cursor as int),
                cond_end(ts, c3) == cond_end(ts, self.cursor as int),
            decreases self.tokens.len() + 1 - self.cursor,
        {
            let ghost before = views(values@);
            let text = self.tokens[self.cursor].to_string();
            proof {
                assert(ts[self.cursor as int] == self.tokens@[self.cursor as int]@);
            }
            values.push(text);
            assert(views(values@) =~= before.push(token_text(ts[self.cursor as int])));
            assert(before + values_from(ts, self.cursor as int) =~= views(values@)
                + values_from(ts, self.cursor + 1));
            self.cursor = self.cursor + 1;
        }
        assert(values_from(ts, self.cursor as int) =~= Seq::<Seq<char>>::empty());
        assert(views(values@) + Seq::<Seq<char>>::empty() =~= views(values@));
        proof {
            lemma_cond_end(ts, c3);
        }
        let body = self.parse_block()?;
        Ok(Statement::For { variable, values, body })
    }

    /// Reads a `{ ... }` block; an empty block when the cursor is not at `{`.
    fn parse_block(&mut self) -> (r: Result<Vec<Statement>, ParseFault>)
        ensures
            final(self).tokens@ == old(self).tokens@,
            match p_block(old(self).tokens_view(), old(self).cursor as int) {
                None => r is Err,
                Some((b, c)) => r matches Ok(v) && statements_view(v@) == b && final(self).cursor
                    == c,
            },
            r is Ok ==> old(self).cursor <= final(self).cursor,
        decreases old(self).tokens.len() + 2 - old(self).cursor, 0int,
    {
        proof {
            use_type_invariant(&*self);
        }
        let ghost ts = self.tokens_view();
        let mut block: Vec<Statement> = Vec::new();
        assert(statements_view(block@) =~= Seq::<SpecStatement>::empty());
        if self.cursor < self.tokens.len() && self.is_lbrace(self.cursor) {
            let ghost c0 = self.cursor as int;
            self.cursor = self.cursor + 1;
            while self.cursor < self.tokens.len()
                invariant
                    self.tokens@ == old(self).tokens@,
                    ts == self.tokens_view(),
                    self.tokens.len() < usize::MAX,
                    c0 < self.cursor <= self.tokens.len() + 1,
                    c0 == old(self).cursor,
                    p_block(ts, c0) == p_items(ts, self.cursor as int, statements_view(block@)),
                decreases self.tokens.len() + 1 - self.cursor,
            {
                let c = self.cursor;
                proof {
                    assert(ts[c as int] == self.tokens@[c as int]@);
                }
                match &self.tokens[c] {
                    Token::RBrace => {
                        self.cursor = c + 1;
                        return Ok(block);
                    },
                    _ => {},
                }
                let res = self.parse_statement();
                proof {
                    use_type_invariant(&*self);
                }
                match res {
                    Err(e) => {
                        return Err(e);
                    },
                    Ok(Some(stmt)) => {
                        proof {
                            lemma_statements_view_push(block@, stmt);
                        }
                        block.push(stmt);
                    },
                    Ok(None) => {
                        self.cursor = self.cursor + 1;
                    },
                }
            }
        }
        Ok(block)
    }

    /// Parses the remaining tokens into statements, each with the condition
    /// that the `&&` or `||` before it sets. Returns `None` exactly where the
    /// grammar has no value ([`parse_tokens`]): a `for` keyword that is the
    /// last token.
    pub fn try_parse(&mut self) -> (r: Option<Vec<Executable>>)
        ensures
            match p_main(
                old(self).tokens_view(),
                old(self).position(),
                Condition::Always,
                Seq::empty(),
            ) {
                Some(es) => r matches Some(v) && executable_views(v@) == es,
                None => r is None,
            },
    {
        proof {
            use_type_invariant(&*self);
        }
        let ghost ts = self.tokens_view();
        let ghost c0 = self.cursor as int;
        let mut executables: Vec<Executable> = Vec::new();
        let mut current_condition = Condition::Always;
        assert(executable_views(executables@) =~= Seq::<SpecExecutable>::empty());
        while self.cursor < self.tokens.len()
            invariant
                self.tokens@ == old(self).tokens@,
                ts == self.tokens_view(),
                self.tokens.len() < usize::MAX,
                self.cursor <= self.tokens.len() + 1,
                c0 == old(self).cursor,
                p_main(ts, c0, Condition::Always, Seq::empty()) == p_main(
                    ts,
                    self.cursor as int,
                    current_condition,
                    executable_views(executables@),
                ),
            decreases self.tokens.len() + 2 - self.cursor,
        {
            let ghost c = self.cursor as int;
            while self.cursor < self.tokens.len() && self.is_newline(self.cursor)
                invariant
                    self.tokens@ == old(self).tokens@,
                    ts == self.tokens_view(),
                    self.tokens.len() < usize::MAX,
                    c <= self.cursor <= self.tokens.len(),
                    skip_newlines(ts, c) == skip_newlines(ts, self.cursor as int),
                decreases self.tokens.len() - self.cursor,
            {
                proof {
                    assert(ts[self.cursor as int] == self.tokens@[self.cursor as int]@);
                }
                self.cursor = self.cursor + 1;
            }
            proof {
                if self.cursor < self.tokens.len() {
                    assert(ts[self.cursor as int] == self.tokens@[self.cursor as int]@);
                }
                lemma_skip_newlines(ts, c);
            }
            if self.cursor >= self.tokens.len() {
                return Some(executables);
            }
            let start = self.cursor;
            let ghost acc = executable_views(executables@);
            let res = self.parse_statement();
            proof {
                use_type_invariant(&*self);
            }
            match res {
                Err(_) => {
                    return None;
                },
                Ok(Some(statement)) => {
                    let e = Executable { statement, condition: current_condition };
                    executables.push(e);
                    assert(executable_views(executables@) =~= acc.push(e@));
                },
                Ok(None) => {},
            }
            if self.cursor == start {
                self.cursor = self.cursor + 1;
            }
            if self.cursor < self.tokens.len() {
                let c3 = self.cursor;
                proof {
                    assert(ts[c3 as int] == self.tokens@[c3 as int]@);
                }
                match &self.tokens[c3] {
                    Token::And => {
                        current_condition = Condition::And;
                        self.cursor = c3 + 1;
                    },
                    Token::Or => {
                        current_condition = Condition::Or;
                        self.cursor = c3 + 1;
                    },
                    _ => {
                        current_condition = Condition::Always;
                    },
                }
            } else {
                return Some(executables);
            }
        }
        Some(executables)
    }

    /// Parses the remaining tokens into statements, each with the condition
    /// that the `&&` or `||` before it sets.
    pub fn parse(&mut self) -> (r: Vec<Executable>)
        requires
            p_main(old(self).tokens_view(), old(self).position(), Condition::Always, Seq::empty()) is Some,
        ensures
            Some(executable_views(r@)) == p_main(
                old(self).tokens_view(),
                old(self).position(),
                Condition::Always,
                Seq::empty(),
            ),
    {
        match self.try_parse() {
            Some(v) => v,
            None => Vec::new(),
        }
    }
}

} // verus!

verus! {

// ---------------------------------------------------------------------------
// Laws
// ---------------------------------------------------------------------------

/// A token sequence of words.
pub open spec fn word_tokens(words: Seq<Seq<char>>) -> Seq<SpecToken> {
    words.map_values(|w: Seq<char>| SpecToken::Word(w))
}

/// Scanning words from `c` up to `e` (where the input ends or `&&`/`||`
/// follows) adds them as arguments to the command being built.
proof fn lemma_scan_words(
    ts: Seq<SpecToken>,
    words: Seq<Seq<char>>,
    c: int,
    e: int,
    cmd: SpecCommand,
)
    requires
        0 <= c <= e <= ts.len(),
        e <= words.len(),
        forall|i: int| c <= i < e ==> #[trigger] ts[i] == SpecToken::Word(words[i]),
        e == ts.len() || ts[e] is And || ts[e] is Or,
    ensures
        pipe_scan(ts, c, Seq::empty(), Some(cmd)) == (
            Seq::<SpecCommand>::empty(),
            Some(SpecCommand { args: cmd.args + words.subrange(c, e), ..cmd }),
            e,
        ),
    decreases e - c,
{
    if c < e {
        assert(ts[c] == SpecToken::Word(words[c]));
        let cmd2 = SpecCommand { args: cmd.args.push(words[c]), ..cmd };
        lemma_scan_words(ts, words, c + 1, e, cmd2);
        assert(cmd.args.push(words[c]) + words.subrange(c + 1, e) =~= cmd.args + words.subrange(
            c,
            e,
        ));
    } else {
        assert(cmd.args + words.subrange(c, e) =~= cmd.args);
    }
}

/// The words from `c` up to `e` form one command.
proof fn lemma_pipeline_words(ts: Seq<SpecToken>, words: Seq<Seq<char>>, c: int, e: int)
    requires
        0 <= c < e <= ts.len(),
        e <= words.len(),
        forall|i: int| c <= i < e ==> #[trigger] ts[i] == SpecToken::Word(words[i]),
        e == ts.len() || ts[e] is And || ts[e] is Or,
    ensures
        p_pipeline(ts, c) == (
            Some(
                SpecStatement::Command(
                    SpecCommand {
                        program: words[c],
                        args: words.subrange(c + 1, e),
                        outfile: None,
                    },
                ),
            ),
            e,
        ),
{
    assert(ts[c] == SpecToken::Word(words[c]));
    let first = SpecCommand { program: words[c], args: Seq::empty(), outfile: None };
    lemma_scan_words(ts, words, c + 1, e, first);
    assert(Seq::<Seq<char>>::empty() + words.subrange(c + 1, e) =~= words.subrange(c + 1, e));
    let cmd = SpecCommand { program: words[c], args: words.subrange(c + 1, e), outfile: None };
    assert(Seq::<SpecCommand>::empty().push(cmd) =~= seq![cmd]);
}

/// Scanning words from `c` up to `e` adds them as arguments to the command
/// being built; the scan then goes on at `e`.
proof fn lemma_scan_prefix(
    ts: Seq<SpecToken>,
    words: Seq<Seq<char>>,
    c: int,
    e: int,
    cmd: SpecCommand,
)
    requires
        0 <= c <= e <= ts.len(),
        e <= words.len(),
        forall|i: int| c <= i < e ==> #[trigger] ts[i] == SpecToken::Word(words[i]),
    ensures
        pipe_scan(ts, c, Seq::empty(), Some(cmd)) == pipe_scan(
            ts,
            e,
            Seq::empty(),
            Some(SpecCommand { args: cmd.args + words.subrange(c, e), ..cmd }),
        ),
    decreases e - c,
{
    if c < e {
        assert(ts[c] == SpecToken::Word(words[c]));
        let cmd2 = SpecCommand { args: cmd.args.push(words[c]), ..cmd };
        lemma_scan_prefix(ts, words, c + 1, e, cmd2);
        assert(cmd.args.push(words[c]) + words.subrange(c + 1, e) =~= cmd.args + words.subrange(
            c,
            e,
        ));
    } else {
        assert(cmd.args + words.subrange(c, e) =~= cmd.args);
    }
}

/// `words > file` is one command whose output goes to `file`: the first
/// word names the program and the others are its arguments.
pub proof fn law_redirect_sets_outfile(words: Seq<Seq<char>>, file: Seq<char>)
    requires
        words.len() > 0,
        words[0] != kw_if(),
        words[0] != kw_while(),
        words[0] != kw_for(),
    ensures
        parse_tokens(word_tokens(words) + seq![SpecToken::RedirectOut, SpecToken::Word(file)])
            == Some(
            seq![
                SpecExecutable {
                    statement: SpecStatement::Command(
                        SpecCommand {
                            program: words[0],
                            args: words.drop_first(),
                            outfile: Some(file),
                        },
                    ),
                    condition: Condition::Always,
                },
            ],
        ),
{
    let ts = word_tokens(words) + seq![SpecToken::RedirectOut, SpecToken::Word(file)];
    let n = words.len() as int;
    assert forall|i: int| 0 <= i < n implies #[trigger] ts[i] == SpecToken::Word(words[i]) by {
        assert(ts[i] == word_tokens(words)[i]);
    }
    assert(ts[n] == SpecToken::RedirectOut);
    assert(ts[n + 1] == SpecToken::Word(file));
    assert(ts.len() == n + 2);
    let first = SpecCommand { program: words[0], args: Seq::empty(), outfile: None };
    assert(pipe_scan(ts, 0, Seq::empty(), None) == pipe_scan(ts, 1, Seq::empty(), Some(first)));
    lemma_scan_prefix(ts, words, 1, n, first);
    assert(Seq::<Seq<char>>::empty() + words.subrange(1, n) =~= words.drop_first());
    let cmd = SpecCommand { program: words[0], args: words.drop_first(), outfile: None };
    let done = SpecCommand { program: words[0], args: words.drop_first(), outfile: Some(file) };
    assert(pipe_scan(ts, n, Seq::empty(), Some(cmd)) == pipe_scan(
        ts,
        n + 2,
        Seq::empty(),
        Some(done),
    ));
    assert(pipe_scan(ts, n + 2, Seq::empty(), Some(done)) == (
        Seq::<SpecCommand>::empty(),
        Some(done),
        n + 2,
    ));
    assert(Seq::<SpecCommand>::empty().push(done) =~= seq![done]);
    assert(p_pipeline(ts, 0) == (Some(SpecStatement::Command(done)), n + 2));
    assert(skip_newlines(ts, 0) == 0);
    let ex = SpecExecutable { statement: SpecStatement::Command(done), condition: Condition::Always };
    assert(Seq::<SpecExecutable>::empty().push(ex) =~= seq![ex]);
}

/// A line of plain words is one command, which always runs: the first word
/// names the program and the others are its arguments.
pub proof fn law_words_form_one_command(words: Seq<Seq<char>>)
    requires
        words.len() > 0,
        words[0] != kw_if(),
        words[0] != kw_while(),
        words[0] != kw_for(),
    ensures
        parse_tokens(word_tokens(words)) == Some(
            seq![
                SpecExecutable {
                    statement: SpecStatement::Command(
                        SpecCommand { program: words[0], args: words.drop_first(), outfile: None },
                    ),
                    condition: Condition::Always,
                },
            ],
        ),
{
    let ts = word_tokens(words);
    let n = ts.len() as int;
    lemma_pipeline_words(ts, words, 0, n);
    assert(words.subrange(1, n) =~= words.drop_first());
    assert(skip_newlines(ts, 0) == 0);
}

/// Two commands joined by `&&` (or `||`) are two statements: the first
/// always runs, the second under the `&&` (or `||`) condition.
pub proof fn law_joined_commands(left: Seq<Seq<char>>, op: SpecToken, right: Seq<Seq<char>>)
    requires
        left.len() > 0,
        right.len() > 0,
        op is And || op is Or,
        left[0] != kw_if() && left[0] != kw_while() && left[0] != kw_for(),
        right[0] != kw_if() && right[0] != kw_while() && right[0] != kw_for(),
    ensures
        parse_tokens(word_tokens(left) + seq![op] + word_tokens(right)) == Some(
            seq![
                SpecExecutable {
                    statement: SpecStatement::Command(
                        SpecCommand { program: left[0], args: left.drop_first(), outfile: None },
                    ),
                    condition: Condition::Always,
                },
                SpecExecutable {
                    statement: SpecStatement::Command(
                        SpecCommand { program: right[0], args: right.drop_first(), outfile: None },
                    ),
                    condition: if op is And {
                        Condition::And
                    } else {
                        Condition::Or
                    },
                },
            ],
        ),
{
    let ts = word_tokens(left) + seq![op] + word_tokens(right);
    let words = left + seq![Seq::<char>::empty()] + right;
    let e1 = left.len() as int;
    let n = ts.len() as int;
    assert forall|i: int| 0 <= i < e1 implies #[trigger] ts[i] == SpecToken::Word(words[i]) by {
        assert(ts[i] == word_tokens(left)[i]);
    }
    assert(ts[e1] == op);
    assert forall|i: int| e1 + 1 <= i < n implies #[trigger] ts[i] == SpecToken::Word(words[i]) by {
        assert(ts[i] == word_tokens(right)[i - e1 - 1]);
        assert(words[i] == right[i - e1 - 1]);
    }
    lemma_pipeline_words(ts, words, 0, e1);
    lemma_pipeline_words(ts, words, e1 + 1, n);
    assert(words.subrange(1, e1) =~= left.drop_first());
    assert(words.subrange(e1 + 2, n) =~= right.drop_first());
    assert(words[0] == left[0]);
    assert(words[e1 + 1] == right[0]);
    assert(skip_newlines(ts, 0) == 0);
    assert(ts[e1 + 1] == SpecToken::Word(words[e1 + 1]));
    assert(skip_newlines(ts, e1 + 1) == e1 + 1);
    let cond = if op is And {
        Condition::And
    } else {
        Condition::Or
    };
    let ex1 = SpecExecutable {
        statement: SpecStatement::Command(
            SpecCommand { program: left[0], args: left.drop_first(), outfile: None },
        ),
        condition: Condition::Always,
    };
    let ex2 = SpecExecutable {
        statement: SpecStatement::Command(
            SpecCommand { program: right[0], args: right.drop_first(), outfile: None },
        ),
        condition: cond,
    };
    assert(p_main(ts, e1 + 1, cond, seq![ex1]) == Some(seq![ex1].push(ex2)));
    assert(seq![ex1].push(ex2) =~= seq![ex1, ex2]);
    assert(Seq::<SpecExecutable>::empty().push(ex1) =~= seq![ex1]);
}

/// From `c` on, each statement that `p_main` adds uses at least one token.
proof fn lemma_main_len(ts: Seq<SpecToken>, c: int, cond: Condition, acc: Seq<SpecExecutable>)
    requires
        0 <= c <= ts.len(),
    ensures
        p_main(ts, c, cond, acc) matches Some(r) ==> r.len() <= acc.len() + ts.len() - c,
    decreases ts.len() + 2 - c,
{
    if c < ts.len() {
        let c1 = skip_newlines(ts, c);
        lemma_skip_newlines(ts, c);
        if c1 < ts.len() {
            match p_statement(ts, c1) {
                None => {},
                Some((st, c2)) => {
                    if c1 <= c2 <= ts.len() + 1 {
                        let acc2 = match st {
                            Some(s) => acc.push(SpecExecutable { statement: s, condition: cond }),
                            None => acc,
                        };
                        let c3 = if c2 == c1 {
                            c2 + 1
                        } else {
                            c2
                        };
                        if c3 < ts.len() {
                            match ts[c3] {
                                SpecToken::And => lemma_main_len(ts, c3 + 1, Condition::And, acc2),
                                SpecToken::Or => lemma_main_len(ts, c3 + 1, Condition::Or, acc2),
                                _ => lemma_main_len(ts, c3, Condition::Always, acc2),
                            }
                        }
                    }
                },
            }
        }
    }
}

/// Parsing gives at most one statement per token.
pub proof fn law_at_most_one_statement_per_token(ts: Seq<SpecToken>)
    ensures
        parse_tokens(ts) matches Some(es) ==> es.len() <= ts.len(),
{
    lemma_main_len(ts, 0, Condition::Always, Seq::empty());
}

/// Every pipeline in the statement, nested ones included, has at least two
/// commands.
pub open spec fn pipelines_ok(st: SpecStatement) -> bool
    decreases st,
{
    match st {
        SpecStatement::If { condition, body, else_if, else_body } => {
            &&& all_pipelines_ok(body)
            &&& branches_pipelines_ok(else_if)
            &&& match else_body {
                Some(b) => all_pipelines_ok(b),
                None => true,
            }
        },
        SpecStatement::While { condition, body } => all_pipelines_ok(body),
        SpecStatement::For { variable, values, body } => all_pipelines_ok(body),
        SpecStatement::Command(c) => true,
        SpecStatement::Pipeline(cs) => cs.len() >= 2,
    }
}

/// [`pipelines_ok`] for every statement of a sequence.
pub open spec fn all_pipelines_ok(v: Seq<SpecStatement>) -> bool
    decreases v,
{
    if v.len() == 0 {
        true
    } else {
        all_pipelines_ok(v.subrange(0, v.len() - 1)) && pipelines_ok(v[v.len() - 1])
    }
}

/// [`pipelines_ok`] for every statement of every `elif` branch.
pub open spec fn branches_pipelines_ok(v: Seq<(Seq<char>, Seq<SpecStatement>)>) -> bool
    decreases v,
{
    if v.len() == 0 {
        true
    } else {
        branches_pipelines_ok(v.subrange(0, v.len() - 1)) && all_pipelines_ok(v[v.len() - 1].1)
    }
}

proof fn lemma_all_ok_push(v: Seq<SpecStatement>, st: SpecStatement)
    ensures
        all_pipelines_ok(v.push(st)) == (all_pipelines_ok(v) && pipelines_ok(st)),
{
    assert(v.push(st).subrange(0, v.len() as int) =~= v);
}

proof fn lemma_branches_ok_push(
    v: Seq<(Seq<char>, Seq<SpecStatement>)>,
    b: (Seq<char>, Seq<SpecStatement>),
)
    ensures
        branches_pipelines_ok(v.push(b)) == (branches_pipelines_ok(v) && all_pipelines_ok(b.1)),
{
    assert(v.push(b).subrange(0, v.len() as int) =~= v);
}

proof fn lemma_statement_ok(ts: Seq<SpecToken>, c: int)
    ensures
        p_statement(ts, c) matches Some((Some(st), _)) ==> pipelines_ok(st),
    decreases ts.len() + 2 - c, 1int,
{
    if c < 0 || c >= ts.len() {
    } else if is_keyword(ts[c], kw_if()) {
        lemma_if_ok(ts, c);
    } else if is_keyword(ts[c], kw_while()) {
        lemma_while_ok(ts, c);
    } else if is_keyword(ts[c], kw_for()) {
        lemma_for_ok(ts, c);
    } else {
    }
}

proof fn lemma_if_ok(ts: Seq<SpecToken>, c: int)
    ensures
        p_if(ts, c) matches Some((st, _)) ==> pipelines_ok(st),
    decreases ts.len() + 2 - c, 0int,
{
    if 0 <= c < ts.len() {
        let c2 = cond_end(ts, c + 1);
        lemma_cond_end(ts, c + 1);
        lemma_block_ok(ts, c2);
        match p_block(ts, c2) {
            None => {},
            Some((body, c3)) => {
                if c2 <= c3 <= ts.len() + 1 {
                    lemma_if_tail_ok(ts, c3, Seq::empty());
                }
            },
        }
    }
}

proof fn lemma_if_tail_ok(ts: Seq<SpecToken>, c: int, else_if: Seq<(Seq<char>, Seq<SpecStatement>)>)
    requires
        branches_pipelines_ok(else_if),
    ensures
        p_if_tail(ts, c, else_if) matches Some((e, b, _)) ==> branches_pipelines_ok(e) && (
        b matches Some(bb) ==> all_pipelines_ok(bb)),
    decreases ts.len() + 2 - c, 0int,
{
    if c < 0 || c >= ts.len() {
    } else if is_keyword(ts[c], kw_elif()) {
        let c2 = cond_end(ts, c + 1);
        lemma_cond_end(ts, c + 1);
        lemma_block_ok(ts, c2);
        match p_block(ts, c2) {
            None => {},
            Some((body, c3)) => {
                if c2 <= c3 <= ts.len() + 1 {
                    let b = (condition_at(ts, c + 1), body);
                    lemma_branches_ok_push(else_if, b);
                    lemma_if_tail_ok(ts, c3, else_if.push(b));
                }
            },
        }
    } else if is_keyword(ts[c], kw_else()) {
        lemma_block_ok(ts, c + 1);
    }
}

proof fn lemma_while_ok(ts: Seq<SpecToken>, c: int)
    ensures
        p_while(ts, c) matches Some((st, _)) ==> pipelines_ok(st),
    decreases ts.len() + 2 - c, 0int,
{
    if 0 <= c < ts.len() {
        let c2 = cond_end(ts, c + 1);
        lemma_cond_end(ts, c + 1);
        lemma_block_ok(ts, c2);
    }
}

proof fn lemma_for_ok(ts: Seq<SpecToken>, c: int)
    ensures
        p_for(ts, c) matches Some((st, _)) ==> pipelines_ok(st),
    decreases ts.len() + 2 - c, 0int,
{
    if 0 <= c && c + 1 < ts.len() {
        let c1 = c + 1;
        let c2 = match ts[c1] {
            SpecToken::Word(w) => c1 + 1,
            _ => c1,
        };
        let c3 = if c2 < ts.len() && is_keyword(ts[c2], kw_in()) {
            c2 + 1
        } else {
            c2
        };
        let c4 = cond_end(ts, c3);
        lemma_cond_end(ts, c3);
        lemma_block_ok(ts, c4);
    }
}

proof fn lemma_block_ok(ts: Seq<SpecToken>, c: int)
    ensures
        p_block(ts, c) matches Some((body, _)) ==> all_pipelines_ok(body),
    decreases ts.len() + 2 - c, 0int,
{
    if 0 <= c < ts.len() && ts[c] is LBrace {
        lemma_items_ok(ts, c + 1, Seq::empty());
    }
}

proof fn lemma_items_ok(ts: Seq<SpecToken>, c: int, acc: Seq<SpecStatement>)
    requires
        all_pipelines_ok(acc),
    ensures
        p_items(ts, c, acc) matches Some((body, _)) ==> all_pipelines_ok(body),
    decreases ts.len() + 2 - c, 2int,
{
    if c < 0 || c >= ts.len() {
    } else if ts[c] is RBrace {
    } else {
        lemma_statement_ok(ts, c);
        match p_statement(ts, c) {
            None => {},
            Some((Some(st), c2)) => {
                if c < c2 <= ts.len() + 1 {
                    lemma_all_ok_push(acc, st);
                    lemma_items_ok(ts, c2, acc.push(st));
                }
            },
            Some((None, c2)) => {
                if c <= c2 <= ts.len() {
                    lemma_items_ok(ts, c2 + 1, acc);
                }
            },
        }
    }
}

proof fn lemma_main_ok(ts: Seq<SpecToken>, c: int, cond: Condition, acc: Seq<SpecExecutable>)
    requires
        forall|i: int| 0 <= i < acc.len() ==> pipelines_ok(#[trigger] acc[i].statement),
    ensures
        p_main(ts, c, cond, acc) matches Some(r) ==> forall|i: int|
            0 <= i < r.len() ==> pipelines_ok(#[trigger] r[i].statement),
    decreases ts.len() + 2 - c,
{
    if 0 <= c < ts.len() {
        let c1 = skip_newlines(ts, c);
        lemma_skip_newlines(ts, c);
        if c1 < ts.len() {
            lemma_statement_ok(ts, c1);
            match p_statement(ts, c1) {
                None => {},
                Some((st, c2)) => {
                    if c1 <= c2 <= ts.len() + 1 {
                        let acc2 = match st {
                            Some(s) => acc.push(SpecExecutable { statement: s, condition: cond }),
                            None => acc,
                        };
                        assert forall|i: int| 0 <= i < acc2.len() implies pipelines_ok(
                            #[trigger] acc2[i].statement,
                        ) by {
                            if i < acc.len() {
                                assert(acc2[i] == acc[i]);
                            }
                        }
                        let c3 = if c2 == c1 {
                            c2 + 1
                        } else {
                            c2
                        };
                        if c3 < ts.len() {
                            match ts[c3] {
                                SpecToken::And => lemma_main_ok(ts, c3 + 1, Condition::And, acc2),
                                SpecToken::Or => lemma_main_ok(ts, c3 + 1, Condition::Or, acc2),
                                _ => lemma_main_ok(ts, c3, Condition::Always, acc2),
                            }
                        }
                    }
                },
            }
        }
    }
}

/// A pipeline always joins two or more commands: a single command is a
/// `Command`, at the top level and inside every block.
pub proof fn law_pipelines_have_two_commands(ts: Seq<SpecToken>)
    ensures
        parse_tokens(ts) matches Some(es) ==> forall|i: int|
            0 <= i < es.len() ==> pipelines_ok(#[trigger] es[i].statement),
{
    lemma_main_ok(ts, 0, Condition::Always, Seq::empty());
}

/// Scanning words from `c` up to `e` adds them as arguments to the command
/// being built, whatever commands the pipeline already holds.
proof fn lemma_scan_words_in(
    ts: Seq<SpecToken>,
    words: Seq<Seq<char>>,
    c: int,
    e: int,
    pl: Seq<SpecCommand>,
    cmd: SpecCommand,
)
    requires
        0 <= c <= e <= ts.len(),
        e <= words.len(),
        forall|i: int| c <= i < e ==> #[trigger] ts[i] == SpecToken::Word(words[i]),
    ensures
        pipe_scan(ts, c, pl, Some(cmd)) == pipe_scan(
            ts,
            e,
            pl,
            Some(SpecCommand { args: cmd.args + words.subrange(c, e), ..cmd }),
        ),
    decreases e - c,
{
    if c < e {
        assert(ts[c] == SpecToken::Word(words[c]));
        let cmd2 = SpecCommand { args: cmd.args.push(words[c]), ..cmd };
        lemma_scan_words_in(ts, words, c + 1, e, pl, cmd2);
        assert(cmd.args.push(words[c]) + words.subrange(c + 1, e) =~= cmd.args + words.subrange(
            c,
            e,
        ));
    } else {
        assert(cmd.args + words.subrange(c, e) =~= cmd.args);
    }
}

/// The command a non-empty list of words forms: the first word names the
/// program, the others are its arguments, and there is no redirection.
pub open spec fn words_command(w: Seq<Seq<char>>) -> SpecCommand {
    SpecCommand { program: w[0], args: w.drop_first(), outfile: None }
}

/// `a | b` is one pipeline of two commands, each keeping all its words:
/// the first word of each side names its program and the others, in order,
/// are its arguments.
pub proof fn law_pipe_joins_two_commands(left: Seq<Seq<char>>, right: Seq<Seq<char>>)
    requires
        left.len() > 0,
        right.len() > 0,
        left[0] != kw_if() && left[0] != kw_while() && left[0] != kw_for(),
    ensures
        parse_tokens(word_tokens(left) + seq![SpecToken::Pipe] + word_tokens(right)) == Some(
            seq![
                SpecExecutable {
                    statement: SpecStatement::Pipeline(
                        seq![words_command(left), words_command(right)],
                    ),
                    condition: Condition::Always,
                },
            ],
        ),
{
    let ts = word_tokens(left) + seq![SpecToken::Pipe] + word_tokens(right);
    let words = left + seq![Seq::<char>::empty()] + right;
    let e1 = left.len() as int;
    let n = ts.len() as int;
    assert(n == e1 + 1 + right.len());
    assert forall|i: int| 0 <= i < e1 implies #[trigger] ts[i] == SpecToken::Word(words[i]) by {
        assert(ts[i] == word_tokens(left)[i]);
    }
    assert(ts[e1] == SpecToken::Pipe);
    assert forall|i: int| e1 + 1 <= i < n implies #[trigger] ts[i] == SpecToken::Word(words[i]) by {
        assert(ts[i] == word_tokens(right)[i - e1 - 1]);
        assert(words[i] == right[i - e1 - 1]);
    }
    assert(words[0] == left[0]);
    assert(words[e1 + 1] == right[0]);
    let empty = Seq::<SpecCommand>::empty();
    let first = SpecCommand { program: left[0], args: Seq::empty(), outfile: None };
    assert(pipe_scan(ts, 0, empty, None) == pipe_scan(ts, 1, empty, Some(first)));
    lemma_scan_words_in(ts, words, 1, e1, empty, first);
    assert(Seq::<Seq<char>>::empty() + words.subrange(1, e1) =~= left.drop_first());
    let c1 = words_command(left);
    assert(pipe_scan(ts, e1, empty, Some(c1)) == pipe_scan(ts, e1 + 1, empty.push(c1), None));
    let second = SpecCommand { program: right[0], args: Seq::empty(), outfile: None };
    assert(pipe_scan(ts, e1 + 1, empty.push(c1), None) == pipe_scan(
        ts,
        e1 + 2,
        empty.push(c1),
        Some(second),
    ));
    lemma_scan_words_in(ts, words, e1 + 2, n, empty.push(c1), second);
    assert(Seq::<Seq<char>>::empty() + words.subrange(e1 + 2, n) =~= right.drop_first());
    let c2 = words_command(right);
    assert(pipe_scan(ts, n, empty.push(c1), Some(c2)) == (empty.push(c1), Some(c2), n));
    assert(empty.push(c1).push(c2) =~= seq![c1, c2]);
    assert(p_pipeline(ts, 0) == (Some(SpecStatement::Pipeline(seq![c1, c2])), n));
    assert(skip_newlines(ts, 0) == 0);
    let ex = SpecExecutable {
        statement: SpecStatement::Pipeline(seq![c1, c2]),
        condition: Condition::Always,
    };
    assert(Seq::<SpecExecutable>::empty().push(ex) =~= seq![ex]);
}

/// The tokens of block lines: each line is a newline followed by its words.
pub open spec fn block_lines(lines: Seq<Seq<Seq<char>>>) -> Seq<SpecToken>
    decreases lines.len(),
{
    if lines.len() == 0 {
        Seq::empty()
    } else {
        seq![SpecToken::Newline] + word_tokens(lines[0]) + block_lines(lines.drop_first())
    }
}

/// Each line is a plain command: it has words, and its first word starts no
/// `if`, `while` or `for`.
pub open spec fn plain_lines(lines: Seq<Seq<Seq<char>>>) -> bool {
    forall|i: int|
        0 <= i < lines.len() ==> #[trigger] lines[i].len() > 0 && lines[i][0] != kw_if()
            && lines[i][0] != kw_while() && lines[i][0] != kw_for()
}

/// The commands of the lines, in order.
pub open spec fn line_commands(lines: Seq<Seq<Seq<char>>>) -> Seq<SpecStatement> {
    lines.map_values(|l: Seq<Seq<char>>| SpecStatement::Command(words_command(l)))
}

/// Reading the items of a block made of plain lines, each after a newline,
/// then a newline and the closing brace.
proof fn lemma_items_lines(ts: Seq<SpecToken>, c: int, lines: Seq<Seq<Seq<char>>>, acc: Seq<SpecStatement>)
    requires
        0 <= c,
        plain_lines(lines),
        c + block_lines(lines).len() + 2 <= ts.len(),
        ts.subrange(c, c + block_lines(lines).len()) == block_lines(lines),
        ts[c + block_lines(lines).len()] == SpecToken::Newline,
        ts[c + block_lines(lines).len() + 1] == SpecToken::RBrace,
    ensures
        p_items(ts, c, acc) == Some((acc + line_commands(lines), c + block_lines(lines).len() + 2)),
    decreases lines.len(),
{
    let k = block_lines(lines).len() as int;
    assert(ts[c] == SpecToken::Newline) by {
        if lines.len() > 0 {
            assert(ts[c] == ts.subrange(c, c + k)[0]);
        }
    }
    assert(pipe_scan(ts, c, Seq::empty(), None) == (Seq::<SpecCommand>::empty(), None::<SpecCommand>, c));
    assert(p_statement(ts, c) == Some((None::<SpecStatement>, c)));
    if lines.len() == 0 {
        assert(acc + line_commands(lines) =~= acc);
    } else {
        let line = lines[0];
        let rest = lines.drop_first();
        assert(plain_lines(rest)) by {
            assert forall|i: int| 0 <= i < rest.len() implies #[trigger] rest[i].len() > 0
                && rest[i][0] != kw_if() && rest[i][0] != kw_while() && rest[i][0] != kw_for() by {
                assert(rest[i] == lines[i + 1]);
            }
        }
        assert(line.len() > 0 && line[0] != kw_if() && line[0] != kw_while() && line[0] != kw_for());
        let m = line.len() as int;
        let bl = block_lines(lines);
        assert(bl == seq![SpecToken::Newline] + word_tokens(line) + block_lines(rest));
        let k2 = block_lines(rest).len() as int;
        assert(k == 1 + m + k2);
        let c2 = c + 1 + m;
        assert forall|i: int| c + 1 <= i < c2 implies #[trigger] ts[i] == SpecToken::Word(line[i - c - 1]) by {
            assert(ts[i] == bl[i - c]);
            assert(bl[i - c] == word_tokens(line)[i - c - 1]);
        }
        assert(ts.subrange(c2, c2 + k2) =~= block_lines(rest)) by {
            assert forall|i: int| 0 <= i < k2 implies ts.subrange(c2, c2 + k2)[i] == block_lines(rest)[i] by {
                assert(ts[c2 + i] == bl[1 + m + i]);
            }
        }
        assert(ts[c2] == SpecToken::Newline) by {
            if k2 > 0 {
                assert(ts[c2] == bl[1 + m]);
                assert(block_lines(rest)[0] == SpecToken::Newline);
            }
        }
        let words = Seq::new(c2 as nat, |i: int| if c + 1 <= i { line[i - c - 1] } else { Seq::<char>::empty() });
        assert forall|i: int| c + 2 <= i < c2 implies #[trigger] ts[i] == SpecToken::Word(words[i]) by {
            assert(ts[i] == SpecToken::Word(line[i - c - 1]));
        }
        assert(ts[c + 1] == SpecToken::Word(line[0]));
        let first = SpecCommand { program: line[0], args: Seq::empty(), outfile: None };
        assert(pipe_scan(ts, c + 1, Seq::empty(), None) == pipe_scan(ts, c + 2, Seq::empty(), Some(first)));
        lemma_scan_words_in(ts, words, c + 2, c2, Seq::empty(), first);
        assert(Seq::<Seq<char>>::empty() + words.subrange(c + 2, c2) =~= line.drop_first());
        let cmd = words_command(line);
        assert(pipe_scan(ts, c2, Seq::empty(), Some(cmd)) == (Seq::<SpecCommand>::empty(), Some(cmd), c2));
        assert(Seq::<SpecCommand>::empty().push(cmd) =~= seq![cmd]);
        assert(p_pipeline(ts, c + 1) == (Some(SpecStatement::Command(cmd)), c2));
        assert(!is_keyword(ts[c + 1], kw_if()) && !is_keyword(ts[c + 1], kw_while()) && !is_keyword(ts[c + 1], kw_for()));
        assert(p_statement(ts, c + 1) == Some((Some(SpecStatement::Command(cmd)), c2)));
        assert(ts[c + 1] !is RBrace);
        lemma_items_lines(ts, c2, rest, acc.push(SpecStatement::Command(cmd)));
        assert(acc.push(SpecStatement::Command(cmd)) + line_commands(rest) =~= acc + line_commands(lines));
        assert(p_items(ts, c + 1, acc) == p_items(ts, c2, acc.push(SpecStatement::Command(cmd))));
    }
}

/// A block reads every statement up to its closing brace: a `{`, plain
/// command lines each after a newline, a newline and `}` give every line's
/// command in order, and parsing goes on right after the `}`.
pub proof fn law_block_reads_to_closing_brace(lines: Seq<Seq<Seq<char>>>, rest: Seq<SpecToken>)
    requires
        plain_lines(lines),
    ensures
        p_block(
            seq![SpecToken::LBrace] + block_lines(lines) + seq![SpecToken::Newline, SpecToken::RBrace]
                + rest,
            0,
        ) == Some((line_commands(lines), block_lines(lines).len() + 3int)),
{
    let b = block_lines(lines);
    let ts = seq![SpecToken::LBrace] + b + seq![SpecToken::Newline, SpecToken::RBrace] + rest;
    let k = b.len() as int;
    assert(ts.subrange(1, 1 + k) =~= b);
    assert(ts[1 + k] == SpecToken::Newline);
    assert(ts[2 + k] == SpecToken::RBrace);
    assert(ts[0] == SpecToken::LBrace);
    lemma_items_lines(ts, 1, lines, Seq::empty());
    assert(Seq::<SpecStatement>::empty() + line_commands(lines) =~= line_commands(lines));
}

} // verus!
