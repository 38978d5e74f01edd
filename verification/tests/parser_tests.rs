use oxide::ast::{Command, Condition, Executable, Statement};
use oxide::lexer::Lexer;
use oxide::parser::Parser;
use oxide::token::Token;

fn w(s: &str) -> Token {
    Token::Word(s.to_string())
}

fn parse(tokens: Vec<Token>) -> Vec<Executable> {
    Parser::new(tokens).parse()
}

fn command(st: &Statement) -> &Command {
    match st {
        Statement::Command(c) => c,
        other => panic!("not a command: {:?}", other),
    }
}

#[test]
fn single_command() {
    let es = parse(vec![w("ls"), w("-la"), w("src")]);
    assert_eq!(es.len(), 1);
    assert_eq!(es[0].condition, Condition::Always);
    let c = command(&es[0].statement);
    assert_eq!(c.program, "ls");
    assert_eq!(c.args, vec!["-la".to_string(), "src".to_string()]);
    assert_eq!(c.outfile, None);
}

#[test]
fn command_new_is_bare() {
    let c = Command::new("pwd".to_string());
    assert_eq!(c.program, "pwd");
    assert!(c.args.is_empty());
    assert!(c.outfile.is_none());
}

#[test]
fn logic_gates_set_conditions() {
    let es = parse(Lexer::new("a && b || c").tokenize());
    assert_eq!(es.len(), 3);
    assert_eq!(es[0].condition, Condition::Always);
    assert_eq!(es[1].condition, Condition::And);
    assert_eq!(es[2].condition, Condition::Or);
    assert_eq!(command(&es[1].statement).program, "b");
    assert_eq!(command(&es[2].statement).program, "c");
}

#[test]
fn pipeline_with_redirect() {
    let es = parse(Lexer::new("ls | grep x > out.txt").tokenize());
    assert_eq!(es.len(), 1);
    match &es[0].statement {
        Statement::Pipeline(cmds) => {
            assert_eq!(cmds.len(), 2);
            assert_eq!(cmds[0].program, "ls");
            assert_eq!(cmds[1].program, "grep");
            assert_eq!(cmds[1].args, vec!["x".to_string()]);
            assert_eq!(cmds[1].outfile, Some("out.txt".to_string()));
        }
        other => panic!("not a pipeline: {:?}", other),
    }
}

#[test]
fn redirect_without_command_is_dropped() {
    let es = parse(vec![Token::RedirectOut, w("f"), Token::Background]);
    assert!(es.is_empty());
}

#[test]
fn newlines_separate_statements() {
    let es = parse(vec![Token::Newline, w("a"), Token::Newline, w("b")]);
    assert_eq!(es.len(), 2);
    assert_eq!(command(&es[0].statement).program, "a");
    assert_eq!(command(&es[1].statement).program, "b");
    assert_eq!(es[1].condition, Condition::Always);
}

#[test]
fn if_elif_else() {
    let tokens = vec![
        w("if"),
        w("$X"),
        Token::LBrace,
        w("echo"),
        w("yes"),
        Token::RBrace,
        w("elif"),
        w("1"),
        Token::LBrace,
        w("echo"),
        w("one"),
        Token::RBrace,
        w("else"),
        Token::LBrace,
        w("echo"),
        w("no"),
        Token::RBrace,
    ];
    let es = parse(tokens);
    assert_eq!(es.len(), 1);
    match &es[0].statement {
        Statement::If { condition, body, else_if, else_body } => {
            assert_eq!(condition, "$X");
            assert_eq!(body.len(), 1);
            assert_eq!(command(&body[0]).args, vec!["yes".to_string()]);
            assert_eq!(else_if.len(), 1);
            assert_eq!(else_if[0].0, "1");
            assert_eq!(command(&else_if[0].1[0]).args, vec!["one".to_string()]);
            let eb = else_body.as_ref().unwrap();
            assert_eq!(command(&eb[0]).args, vec!["no".to_string()]);
        }
        other => panic!("not an if: {:?}", other),
    }
}

#[test]
fn while_condition_joins_token_texts() {
    let tokens = vec![
        w("while"),
        w("a"),
        Token::RedirectOut,
        Token::StringLiteral("b c".to_string()),
        Token::LBrace,
        w("x"),
        Token::RBrace,
    ];
    let es = parse(tokens);
    match &es[0].statement {
        Statement::While { condition, body } => {
            assert_eq!(condition, "a > b c");
            assert_eq!(command(&body[0]).program, "x");
        }
        other => panic!("not a while: {:?}", other),
    }
}

#[test]
fn for_loop() {
    let tokens = vec![
        w("for"),
        w("x"),
        w("in"),
        w("a"),
        w("b"),
        Token::LBrace,
        w("echo"),
        w("$x"),
        Token::RBrace,
        w("done"),
    ];
    let es = parse(tokens);
    assert_eq!(es.len(), 2);
    match &es[0].statement {
        Statement::For { variable, values, body } => {
            assert_eq!(variable, "x");
            assert_eq!(values, &vec!["a".to_string(), "b".to_string()]);
            assert_eq!(command(&body[0]).program, "echo");
        }
        other => panic!("not a for: {:?}", other),
    }
    assert_eq!(command(&es[1].statement).program, "done");
}

#[test]
fn for_as_last_token_cannot_be_parsed() {
    assert!(Parser::new(vec![w("echo"), Token::And, w("for")]).try_parse().is_none());
    assert!(Parser::new(vec![w("for"), w("x")]).try_parse().is_some());
}

#[test]
fn block_without_closing_brace_runs_to_end() {
    let es = parse(vec![w("while"), w("1"), Token::LBrace, w("a"), w("b")]);
    match &es[0].statement {
        Statement::While { body, .. } => {
            assert_eq!(body.len(), 1);
            assert_eq!(command(&body[0]).args, vec!["b".to_string()]);
        }
        other => panic!("not a while: {:?}", other),
    }
}

#[test]
fn stray_closing_brace_is_skipped() {
    let es = parse(vec![w("a"), Token::RBrace, w("b")]);
    assert_eq!(es.len(), 2);
    assert_eq!(command(&es[1].statement).program, "b");
}

#[test]
fn echo_redirected_to_file() {
    let tokens = Lexer::new("echo \"Project Status\" > status.txt").tokenize();
    let es = parse(tokens);
    assert_eq!(es.len(), 1);
    let c = command(&es[0].statement);
    assert_eq!(c.program, "echo");
    assert_eq!(c.args, vec!["Project Status".to_string()]);
    assert_eq!(c.outfile, Some("status.txt".to_string()));
}

#[test]
fn empty_pipe_segments_are_dropped() {
    let es = parse(vec![Token::Pipe, w("a"), Token::Pipe, Token::Pipe, w("b")]);
    assert_eq!(es.len(), 1);
    match &es[0].statement {
        Statement::Pipeline(cs) => {
            assert_eq!(cs.len(), 2);
            assert_eq!(cs[0].program, "a");
            assert_eq!(cs[1].program, "b");
            assert!(cs[0].args.is_empty() && cs[0].outfile.is_none());
        }
        other => panic!("not a pipeline: {:?}", other),
    }
    let single = parse(vec![w("a"), Token::Pipe]);
    assert_eq!(command(&single[0].statement).program, "a");
}

#[test]
fn at_most_one_statement_per_token() {
    let ts = vec![w("a"), Token::And, w("b"), Token::Newline, Token::Newline, w("c"), Token::Or];
    let n = ts.len();
    assert!(parse(ts).len() <= n);
    assert_eq!(parse(vec![Token::And, Token::Or, Token::Pipe]).len(), 0);
}
