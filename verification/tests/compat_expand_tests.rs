use oxide::compat::{bash_mode, posix_mode, CompatMode};
use oxide::expand::{expand_glob, expand_text, is_glob_pattern, Environment};

#[test]
fn bash_conditionals_and_functions() {
    assert_eq!(bash_mode::translate("if [[ -f x ]]"), "if [ -f x ]");
    assert_eq!(bash_mode::translate("function greet() {"), "greet() {");
    assert_eq!(bash_mode::translate("[[[x]]]"), "[[x]]");
    assert_eq!(bash_mode::translate("echo plain"), "echo plain");
}

#[test]
fn posix_dot_is_source() {
    assert_eq!(posix_mode::translate(". ~/.profile"), "source ~/.profile");
    assert_eq!(posix_mode::translate("echo . x"), "echo . x");
    assert_eq!(posix_mode::translate(".x"), ".x");
    assert_eq!(posix_mode::translate(". "), "source ");
}

#[test]
fn default_mode_is_native() {
    assert_eq!(CompatMode::default(), CompatMode::Oxide);
}

fn env(pairs: &[(&str, &str)]) -> Environment {
    let mut e = Environment::new();
    for (k, v) in pairs {
        e.set(k.to_string(), v.to_string());
    }
    e
}

#[test]
fn variables_and_home() {
    let e = env(&[("HOME", "/home/u"), ("X", "1")]);
    assert_eq!(expand_text("$X-$Y ~ $ a$", &e), "1- /home/u $ a$");
    assert_eq!(expand_text("${X}", &e), "${X}");
    assert_eq!(expand_text("$X_1", &e), "");
}

#[test]
fn home_falls_back_to_userprofile_then_tilde() {
    let e = env(&[("USERPROFILE", "C:\\Users\\u")]);
    assert_eq!(expand_text("~/x", &e), "C:\\Users\\u/x");
    let none = Environment::new();
    assert_eq!(expand_text("~/x", &none), "~/x");
    let empty_home = env(&[("HOME", ""), ("USERPROFILE", "p")]);
    assert_eq!(expand_text("~", &empty_home), "");
}

#[test]
fn unicode_letters_continue_variable_names() {
    let e = env(&[("é1", "v")]);
    assert_eq!(expand_text("$é1!", &e), "v!");
    assert_eq!(expand_text("$-", &e), "$-");
}

#[test]
fn environment_lookup() {
    let mut e = env(&[("A", "1")]);
    assert_eq!(e.get("A"), Some("1".to_string()));
    e.set("A".to_string(), "2".to_string());
    assert_eq!(e.get("A"), Some("2".to_string()));
    assert_eq!(e.get("B"), None);
}

#[test]
fn glob_patterns() {
    assert!(is_glob_pattern("*.rs"));
    assert!(is_glob_pattern("a?"));
    assert!(is_glob_pattern("[ab]"));
    assert!(!is_glob_pattern("plain.txt"));
    assert_eq!(
        expand_glob("src\\*.rs", vec!["src\\a.rs".to_string(), "src\\b.rs".to_string()]),
        vec!["src/a.rs".to_string(), "src/b.rs".to_string()]
    );
    assert_eq!(expand_glob("*.none", vec![]), vec!["*.none".to_string()]);
    assert_eq!(expand_glob("plain", vec!["x".to_string()]), vec!["plain".to_string()]);
}
