//! The tokens that the lexer produces and the parser consumes.
use vstd::prelude::*;

use crate::text::copy_string;

verus! {

/// A lexical token of the shell language.
#[derive(Debug, Clone, PartialEq)]
pub enum Token {
    Word(String),
    StringLiteral(String),
    If,
    Elif,
    Else,
    LBrace,
    RBrace,
    And,
    Or,
    Pipe,
    RedirectOut,
    RedirectIn,
    Background,
    Newline,
}

/// The mathematical value of a [`Token`].
pub enum SpecToken {
    Word(Seq<char>),
    StringLiteral(Seq<char>),
    If,
    Elif,
    Else,
    LBrace,
    RBrace,
    And,
    Or,
    Pipe,
    RedirectOut,
    RedirectIn,
    Background,
    Newline,
}

impl View for Token {
    type V = SpecToken;

    open spec fn view(&self) -> SpecToken {
        match self {
            Token::Word(s) => SpecToken::Word(s@),
            Token::StringLiteral(s) => SpecToken::StringLiteral(s@),
            Token::If => SpecToken::If,
            Token::Elif => SpecToken::Elif,
            Token::Else => SpecToken::Else,
            Token::LBrace => SpecToken::LBrace,
            Token::RBrace => SpecToken::RBrace,
            Token::And => SpecToken::And,
            Token::Or => SpecToken::Or,
            Token::Pipe => SpecToken::Pipe,
            Token::RedirectOut => SpecToken::RedirectOut,
            Token::RedirectIn => SpecToken::RedirectIn,
            Token::Background => SpecToken::Background,
            Token::Newline => SpecToken::Newline,
        }
    }
}

/// The views of a sequence of tokens.
pub open spec fn token_views(v: Seq<Token>) -> Seq<SpecToken> {
    v.map_values(|t: Token| t@)
}

/// The text a token is displayed as: a word shows its content, an operator
/// its symbol, a keyword its name.
pub open spec fn token_text(t: SpecToken) -> Seq<char> {
    match t {
        SpecToken::Word(s) => s,
        SpecToken::StringLiteral(s) => s,
        SpecToken::If => seq!['i', 'f'],
        SpecToken::Elif => seq!['e', 'l', 'i', 'f'],
        SpecToken::Else => seq!['e', 'l', 's', 'e'],
        SpecToken::LBrace => seq!['{'],
        SpecToken::RBrace => seq!['}'],
        SpecToken::And => seq!['&', '&'],
        SpecToken::Or => seq!['|', '|'],
        SpecToken::Pipe => seq!['|'],
        SpecToken::RedirectOut => seq!['>'],
        SpecToken::RedirectIn => seq!['<'],
        SpecToken::Background => seq!['&'],
        SpecToken::Newline => seq!['\n'],
    }
}

impl Token {
    /// The text the token is displayed as.
    pub fn to_string(&self) -> (r: String)
        ensures
            r@ == token_text(self@),
    {
        let mut v: Vec<char> = Vec::new();
        match self {
            Token::Word(s) => {
                return copy_string(s.as_str());
            },
            Token::StringLiteral(s) => {
                return copy_string(s.as_str());
            },
            Token::If => {
                v.push('i');
                v.push('f');
            },
            Token::Elif => {
                v.push('e');
                v.push('l');
                v.push('i');
                v.push('f');
            },
            Token::Else => {
                v.push('e');
                v.push('l');
                v.push('s');
                v.push('e');
            },
            Token::LBrace => {
                v.push('{');
            },
            Token::RBrace => {
                v.push('}');
            },
            Token::And => {
                v.push('&');
                v.push('&');
            },
            Token::Or => {
                v.push('|');
                v.push('|');
            },
            Token::Pipe => {
                v.push('|');
            },
            Token::RedirectOut => {
                v.push('>');
            },
            Token::RedirectIn => {
                v.push('<');
            },
            Token::Background => {
                v.push('&');
            },
            Token::Newline => {
                v.push('\n');
            },
        }
        assert(v@ =~= token_text(self@));
        crate::text::string_of(&v)
    }
}

} // verus!
