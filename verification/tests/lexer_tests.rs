use oxide::lexer::Lexer;
use oxide::token::Token;

fn w(s: &str) -> Token {
    Token::Word(s.to_string())
}

#[test]
fn words_and_pipe() {
    let tokens = Lexer::new("ls -la | grep src").tokenize();
    assert_eq!(tokens, vec![w("ls"), w("-la"), Token::Pipe, w("grep"), w("src")]);
}

#[test]
fn quoted_text_keeps_spaces() {
    let tokens = Lexer::new("echo \"hello  world\" 'a|b&c'").tokenize();
    assert_eq!(tokens, vec![w("echo"), w("hello  world"), w("a|b&c")]);
}

#[test]
fn unterminated_quote_runs_to_end() {
    let tokens = Lexer::new("echo 'abc def").tokenize();
    assert_eq!(tokens, vec![w("echo"), w("abc def")]);
}

#[test]
fn operators() {
    let tokens = Lexer::new("a && b || c & d > f < g").tokenize();
    assert_eq!(
        tokens,
        vec![
            w("a"),
            Token::And,
            w("b"),
            Token::Or,
            w("c"),
            Token::Background,
            w("d"),
            Token::RedirectOut,
            w("f"),
            Token::RedirectIn,
            w("g"),
        ]
    );
}

#[test]
fn operators_end_words() {
    let tokens = Lexer::new("echo hi>out.txt").tokenize();
    assert_eq!(tokens, vec![w("echo"), w("hi"), Token::RedirectOut, w("out.txt")]);
}

#[test]
fn braces_inside_words_are_kept() {
    let tokens = Lexer::new("a{b} c}").tokenize();
    assert_eq!(tokens, vec![w("a{b}"), w("c}")]);
}

#[test]
fn blank_input_has_no_tokens() {
    assert!(Lexer::new(" \t\r\n").tokenize().is_empty());
}

#[test]
fn brace_at_token_start_never_ends() {
    assert!(Lexer::new("if x {").try_tokenize().is_none());
    assert!(Lexer::new("}").try_tokenize().is_none());
}

#[test]
fn other_white_space_never_ends() {
    assert!(Lexer::new("a\u{a0}b").try_tokenize().is_none());
    assert!(Lexer::new("a\u{b}").try_tokenize().is_none());
}

#[test]
fn word_stops_at_unicode_white_space_inside_quotes_too() {
    let tokens = Lexer::new("'a\u{a0}b'").try_tokenize().unwrap();
    assert_eq!(tokens, vec![w("a\u{a0}b")]);
}

#[test]
fn token_text() {
    assert_eq!(w("abc").to_string(), "abc");
    assert_eq!(Token::StringLiteral("x y".to_string()).to_string(), "x y");
    assert_eq!(Token::If.to_string(), "if");
    assert_eq!(Token::Elif.to_string(), "elif");
    assert_eq!(Token::Else.to_string(), "else");
    assert_eq!(Token::LBrace.to_string(), "{");
    assert_eq!(Token::RBrace.to_string(), "}");
    assert_eq!(Token::And.to_string(), "&&");
    assert_eq!(Token::Or.to_string(), "||");
    assert_eq!(Token::Pipe.to_string(), "|");
    assert_eq!(Token::RedirectOut.to_string(), ">");
    assert_eq!(Token::RedirectIn.to_string(), "<");
    assert_eq!(Token::Background.to_string(), "&");
    assert_eq!(Token::Newline.to_string(), "\n");
}

#[test]
fn joined_token_texts_lex_back() {
    let ts = vec![
        w("ls"), Token::Pipe, w("grep"), w("x{y}"), Token::Or, Token::Pipe, Token::Pipe,
        Token::And, Token::Background, Token::Background, Token::RedirectOut, w("f"), Token::RedirectIn,
    ];
    let text = ts.iter().map(|t| t.to_string()).collect::<Vec<String>>().join(" ");
    assert_eq!(Lexer::new(&text).tokenize(), ts);
}

#[test]
fn token_texts_are_the_line_without_white_space() {
    for s in ["ls -la|grep  x>out &&b||c &", " \t\n ", "a<b>c|d", "x{y} z"] {
        let ts = Lexer::new(s).tokenize();
        let joined: String = ts.iter().map(|t| t.to_string()).collect();
        let stripped: String = s.chars().filter(|c| !c.is_whitespace()).collect();
        assert_eq!(joined, stripped, "{:?}", s);
        for t in &ts {
            if let Token::Word(x) = t {
                assert!(!x.is_empty());
            }
        }
    }
    assert!(Lexer::new(" \t\r\n").tokenize().is_empty());
}
