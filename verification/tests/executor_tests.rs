use oxide::ast::{Condition, Statement};
use oxide::compat::CompatMode;
use oxide::executor::{
    apply_alias, choose_branch, classify_prompt_line, classify_script_line, evaluate_if_condition,
    gate_allows, mode_from_name, plan_line, route, skips_expansion, split_background,
    translate_for_mode, missing_operands, source_without_file, Branch, Builtin, LineKind, LinePlan,
    ShellStatus,
};
use oxide::expand::Environment;
use oxide::strmap::StrMap;

fn aliases(pairs: &[(&str, &str)]) -> StrMap<String> {
    let mut m = StrMap::new();
    for (k, v) in pairs {
        m.insert(k.to_string(), v.to_string());
    }
    m
}

#[test]
fn alias_replaces_first_word_only() {
    let a = aliases(&[("ll", "ls -la")]);
    assert_eq!(apply_alias("  ll src ll", &a), "  ls -la src ll");
    assert_eq!(apply_alias("echo ll", &a), "echo ll");
    assert_eq!(apply_alias("   ", &a), "   ");
}

#[test]
fn alias_replacement_is_textual() {
    let a = aliases(&[("g", "grep")]);
    assert_eq!(apply_alias("g\tx", &a), "grep\tx");
}

#[test]
fn mode_translation() {
    assert_eq!(translate_for_mode("[[ x ]]", CompatMode::Bash), "[ x ]");
    assert_eq!(translate_for_mode(". f", CompatMode::Posix), "source f");
    assert_eq!(translate_for_mode("[[ x ]]", CompatMode::Oxide), "[[ x ]]");
}

#[test]
fn plans() {
    let a = aliases(&[("sub", "(cd /tmp)")]);
    match plan_line("  (echo hi)  ", CompatMode::Oxide, &a) {
        LinePlan::Subshell(inner) => assert_eq!(inner, "echo hi"),
        LinePlan::Run(_) => panic!("expected a subshell"),
    }
    match plan_line("sub", CompatMode::Oxide, &a) {
        LinePlan::Subshell(inner) => assert_eq!(inner, "cd /tmp"),
        LinePlan::Run(_) => panic!("expected a subshell"),
    }
    match plan_line(" echo (x", CompatMode::Oxide, &a) {
        LinePlan::Run(t) => assert_eq!(t, " echo (x"),
        LinePlan::Subshell(_) => panic!("expected a plain line"),
    }
    match plan_line("()", CompatMode::Oxide, &a) {
        LinePlan::Subshell(inner) => assert_eq!(inner, ""),
        LinePlan::Run(_) => panic!("expected a subshell"),
    }
}

#[test]
fn gates() {
    assert!(gate_allows(Condition::Always, 1));
    assert!(gate_allows(Condition::And, 0));
    assert!(!gate_allows(Condition::And, 2));
    assert!(gate_allows(Condition::Or, 127));
    assert!(!gate_allows(Condition::Or, 0));
}

#[test]
fn routing() {
    assert_eq!(route("ls"), Builtin::Ls);
    assert_eq!(route("dir"), Builtin::Ls);
    assert_eq!(route("hello"), Builtin::Greet);
    assert_eq!(route("hi"), Builtin::Greet);
    assert_eq!(route("mode"), Builtin::Mode);
    assert_eq!(route("source"), Builtin::Source);
    assert_eq!(route("git"), Builtin::External);
    assert!(skips_expansion("export"));
    assert!(skips_expansion("alias"));
    assert!(!skips_expansion("echo"));
}

#[test]
fn modes_by_name() {
    assert_eq!(mode_from_name("bash"), Some(CompatMode::Bash));
    assert_eq!(mode_from_name("posix"), Some(CompatMode::Posix));
    assert_eq!(mode_from_name("oxide"), Some(CompatMode::Oxide));
    assert_eq!(mode_from_name("zsh"), None);
}

#[test]
fn background() {
    let (bg, args) = split_background(vec!["10".to_string(), "&".to_string()]);
    assert!(bg);
    assert_eq!(args, vec!["10".to_string()]);
    let (bg, args) = split_background(vec!["a&".to_string()]);
    assert!(!bg);
    assert_eq!(args, vec!["a&".to_string()]);
    let (bg, args) = split_background(vec![]);
    assert!(!bg);
    assert!(args.is_empty());
}

#[test]
fn if_conditions() {
    let mut e = Environment::new();
    e.set("ON".to_string(), "yes".to_string());
    e.set("OFF".to_string(), "false".to_string());
    assert!(evaluate_if_condition("$ON", &e));
    assert!(!evaluate_if_condition("$OFF", &e));
    assert!(!evaluate_if_condition("$MISSING", &e));
    assert!(!evaluate_if_condition("0", &e));
    assert!(!evaluate_if_condition("", &e));
    assert!(!evaluate_if_condition("false", &e));
    assert!(evaluate_if_condition("False", &e));
    assert!(evaluate_if_condition("00", &e));
}

#[test]
fn branches() {
    let e = Environment::new();
    let elifs: Vec<(String, Vec<Statement>)> =
        vec![("0".to_string(), vec![]), ("1".to_string(), vec![]), ("2".to_string(), vec![])];
    assert_eq!(choose_branch("1", &elifs, true, &e), Branch::Body);
    assert_eq!(choose_branch("0", &elifs, true, &e), Branch::ElseIf(1));
    let none: Vec<(String, Vec<Statement>)> = vec![("0".to_string(), vec![])];
    assert_eq!(choose_branch("0", &none, true, &e), Branch::Else);
    assert_eq!(choose_branch("0", &none, false, &e), Branch::Nothing);
}

#[test]
fn read_loop_lines() {
    assert!(matches!(classify_prompt_line("   "), LineKind::Skip));
    assert!(matches!(classify_prompt_line(" exit "), LineKind::Exit));
    match classify_prompt_line("  # not a comment here ") {
        LineKind::Run(t) => assert_eq!(t, "# not a comment here"),
        _ => panic!("expected a command"),
    }
    assert!(matches!(classify_script_line("  # comment"), LineKind::Skip));
    assert!(matches!(classify_script_line(""), LineKind::Skip));
    assert!(matches!(classify_script_line("exit"), LineKind::Exit));
    match classify_script_line(" ls -la\n") {
        LineKind::Run(t) => assert_eq!(t, "ls -la"),
        _ => panic!("expected a command"),
    }
}

#[test]
fn status_steps() {
    let mut st = ShellStatus::new();
    assert_eq!(st.mode, CompatMode::Oxide);
    assert!(st.admits(Condition::And));
    assert!(!st.admits(Condition::Or));
    st.finish(Builtin::External, &vec![], Some(3));
    assert_eq!(st.last_exit_code, 3);
    assert!(!st.admits(Condition::And));
    assert!(st.admits(Condition::Or));
    st.finish(Builtin::Import, &vec![], Some(9));
    assert_eq!(st.last_exit_code, 3);
    st.finish(Builtin::Jail, &vec![], None);
    assert_eq!(st.last_exit_code, 3);
    st.finish(Builtin::Jail, &vec![], Some(9));
    assert_eq!(st.last_exit_code, 9);
    st.finish(Builtin::Echo, &vec![], None);
    assert_eq!(st.last_exit_code, 0);
    st.finish(Builtin::External, &vec![], Some(3));
    st.finish(Builtin::Source, &vec![], None);
    assert_eq!(st.last_exit_code, 3);
    st.finish(Builtin::Mode, &vec!["bash".to_string()], None);
    assert_eq!(st.mode, CompatMode::Bash);
    assert_eq!(st.last_exit_code, 0);
    st.finish(Builtin::Mode, &vec!["zsh".to_string()], None);
    assert_eq!(st.mode, CompatMode::Bash);
    st.finish(Builtin::Refresh, &vec![], Some(1));
    assert_eq!(st.mode, CompatMode::Oxide);
    assert_eq!(st.last_exit_code, 1);
    st.finish(Builtin::Greet, &vec![], None);
    assert_eq!(st.last_exit_code, 0);
}

fn run_line(st: &mut ShellStatus, steps: &[(Condition, Builtin, Vec<String>, Option<i32>)]) -> Vec<bool> {
    let mut ran = Vec::new();
    for (cond, b, args, work) in steps {
        let runs = st.admits(*cond);
        if runs {
            st.finish(*b, args, *work);
        }
        ran.push(runs);
    }
    ran
}

#[test]
fn mode_alternatives_on_one_line() {
    let bash = vec!["bash".to_string()];
    let posix = vec!["posix".to_string()];
    let mut st = ShellStatus::new();
    let ran = run_line(&mut st, &[(Condition::Always, Builtin::Mode, bash.clone(), None), (Condition::Or, Builtin::Mode, posix.clone(), None)]);
    assert_eq!(ran, vec![true, false]);
    assert_eq!(st.mode, CompatMode::Bash);
    let mut st = ShellStatus::new();
    run_line(&mut st, &[(Condition::Always, Builtin::Mode, bash, None), (Condition::And, Builtin::Mode, posix, None)]);
    assert_eq!(st.mode, CompatMode::Posix);
}

#[test]
fn line_gates_follow_codes() {
    let mut st = ShellStatus::new();
    let steps = [
        (Condition::Always, Builtin::External, vec![], Some(1)),
        (Condition::And, Builtin::External, vec![], Some(0)),
        (Condition::Or, Builtin::External, vec![], Some(0)),
        (Condition::And, Builtin::External, vec![], Some(2)),
        (Condition::Or, Builtin::External, vec![], Some(0)),
    ];
    assert_eq!(run_line(&mut st, &steps), vec![true, false, true, true, true]);
    assert_eq!(st.last_exit_code, 0);
}

#[test]
fn operand_counts() {
    let none: Vec<String> = vec![];
    let one = vec!["x".to_string()];
    assert!(missing_operands(Builtin::Touch, &none));
    assert!(!missing_operands(Builtin::Touch, &one));
    assert!(missing_operands(Builtin::Find, &one));
    assert!(missing_operands(Builtin::Grep, &one));
    assert!(!missing_operands(Builtin::Ls, &none));
    assert_eq!(source_without_file(true), Some(1));
    assert_eq!(source_without_file(false), None);
}
