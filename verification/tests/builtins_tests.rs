use oxide::builtins::bind::{BindManager, ShellAction};
use oxide::builtins::cd::{target, CdTarget};
use oxide::builtins::{alias, echo, export, find, grep, help, history, ls, sleep};
use oxide::strmap::StrMap;

fn strings(v: &[&str]) -> Vec<String> {
    v.iter().map(|s| s.to_string()).collect()
}

#[test]
fn alias_definitions() {
    let mut m: StrMap<String> = StrMap::new();
    assert_eq!(alias::execute(&strings(&["ll='ls -la'", "g=\"grep\"", "e=a=b"]), &mut m), 0);
    assert_eq!(m.get("ll"), Some(&"ls -la".to_string()));
    assert_eq!(m.get("g"), Some(&"grep".to_string()));
    assert_eq!(m.get("e"), Some(&"a=b".to_string()));
    assert_eq!(alias::execute(&strings(&["x=1", "bad", "y=2"]), &mut m), 1);
    assert_eq!(m.get("x"), Some(&"1".to_string()));
    assert_eq!(m.get("y"), None);
    assert_eq!(alias::execute(&[], &mut m), 0);
    assert_eq!(alias::execute(&strings(&["ll=''ls''"]), &mut m), 0);
    assert_eq!(m.get("ll"), Some(&"ls".to_string()));
    let keys: Vec<&String> = m.entries().iter().map(|(k, _)| k).collect();
    assert_eq!(keys, vec!["ll", "g", "e", "x"]);
}

#[test]
fn export_assignments() {
    let (pairs, code) = export::assignments(&strings(&["A=1", "B=x=y"]));
    assert_eq!(code, 0);
    assert_eq!(pairs, vec![("A".to_string(), "1".to_string()), ("B".to_string(), "x=y".to_string())]);
    let (pairs, code) = export::assignments(&strings(&["A=1", "oops", "C=3"]));
    assert_eq!(code, 1);
    assert_eq!(pairs, vec![("A".to_string(), "1".to_string())]);
    let (pairs, code) = export::assignments(&[]);
    assert_eq!(code, 1);
    assert!(pairs.is_empty());
}

#[test]
fn cd_targets() {
    assert!(matches!(target(&[]), CdTarget::Home));
    assert!(matches!(target(&strings(&["-"])), CdTarget::Previous));
    match target(&strings(&["/tmp", "x"])) {
        CdTarget::Path(p) => assert_eq!(p, "/tmp"),
        _ => panic!("expected a path"),
    }
}

#[test]
fn echo_joins_with_spaces() {
    assert_eq!(echo::line(&strings(&["a", "b c", ""])), "a b c ");
    assert_eq!(echo::line(&vec![]), "");
}

#[test]
fn find_matches_substrings() {
    assert!(find::name_matches("config.json", ".json"));
    assert!(!find::name_matches("config.toml", ".json"));
    assert!(find::name_matches("x", ""));
}

#[test]
fn grep_lines() {
    let found = grep::matching_lines("a\r\nfoo\nbar foo\nfo\n", "foo");
    assert_eq!(found, vec![(2, "foo".to_string()), (3, "bar foo".to_string())]);
    assert!(grep::matching_lines("", "x").is_empty());
    let crlf = grep::matching_lines("x\r", "x");
    assert_eq!(crlf, vec![(1, "x\r".to_string())]);
}

#[test]
fn help_text() {
    let l = help::lines(&vec![]);
    assert_eq!(l.len(), 2);
    assert_eq!(l[0], "Available built-in commands:");
    assert!(l[1].starts_with("alias cat cd"));
    assert_eq!(
        help::lines(&strings(&["cd", "now"])),
        vec!["oxide: help: no detailed help available for 'cd now'.".to_string()]
    );
}

#[test]
fn history_lines() {
    assert!(!history::should_record("  \t"));
    assert!(history::should_record(" ls "));
    assert_eq!(history::entries("ls\r\ncd /\n\npwd"), strings(&["ls", "cd /", "", "pwd"]));
}

#[test]
fn ls_flags() {
    let o = ls::options(&strings(&["-l", "src", "-a", "docs"]));
    assert!(o.show_all);
    assert_eq!(o.path, Some("src".to_string()));
    let o = ls::options(&strings(&["-l"]));
    assert!(!o.show_all);
    assert_eq!(o.path, None);
    assert!(ls::shows("a.txt", false));
    assert!(!ls::shows(".git", false));
    assert!(ls::shows(".git", true));
}

#[test]
fn sleep_seconds() {
    assert_eq!(sleep::parse_seconds("5"), Some(5));
    assert_eq!(sleep::parse_seconds("+7"), Some(7));
    assert_eq!(sleep::parse_seconds("007"), Some(7));
    assert_eq!(sleep::parse_seconds(""), None);
    assert_eq!(sleep::parse_seconds("+"), None);
    assert_eq!(sleep::parse_seconds("-1"), None);
    assert_eq!(sleep::parse_seconds("1a"), None);
    assert_eq!(sleep::parse_seconds(" 1"), None);
    assert_eq!(sleep::parse_seconds("18446744073709551615"), Some(u64::MAX));
    assert_eq!(sleep::parse_seconds("18446744073709551616"), None);
    assert_eq!(sleep::parse_seconds("99999999999999999999"), None);
    for s in ["0", "42", "+1", "x", "1.5", "184467440737095516150"] {
        assert_eq!(sleep::parse_seconds(s), s.parse::<u64>().ok());
    }
}

#[test]
fn key_bindings() {
    let mut b = BindManager { key_map: StrMap::new() };
    b.key_map.insert("\\C-l".to_string(), ShellAction::ClearScreen);
    b.key_map.insert("\\C-x".to_string(), ShellAction::Custom("ls".to_string()));
    assert!(matches!(b.key_map.get("\\C-l"), Some(ShellAction::ClearScreen)));
    assert!(matches!(b.key_map.get("\\C-x"), Some(ShellAction::Custom(s)) if s == "ls"));
    assert!(b.key_map.get("\\t").is_none());
}

#[test]
fn grep_report_lines() {
    assert_eq!(grep::report_line("a.txt", 12, "hit", true), "a.txt:12: hit");
    assert_eq!(grep::report_line("a.txt", 12, "hit", false), "hit");
    for n in [0usize, 1, 9, 10, 99, 100, 4096, usize::MAX] {
        assert_eq!(grep::report_line("p", n, "l", true), format!("{}:{}: {}", "p", n, "l"));
    }
}

#[test]
fn history_listing_lines() {
    assert_eq!(history::listing_line(0, "ls"), "    1  ls");
    for i in [0usize, 8, 9, 98, 9999, 99998, 123456] {
        assert_eq!(history::listing_line(i, "cd /"), format!("{:>5}  {}", i + 1, "cd /"));
    }
}

#[test]
fn alias_listing_lines() {
    let mut m: StrMap<String> = StrMap::new();
    assert!(alias::listing(&m).is_empty());
    assert_eq!(alias::execute(&strings(&["ll=ls -la", "g=grep"]), &mut m), 0);
    assert_eq!(alias::listing(&m), strings(&["alias ll='ls -la'", "alias g='grep'"]));
}
