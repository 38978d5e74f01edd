use std::path::PathBuf;

use oxide::jobs::JobManager;
use oxide::perf::{CommandCache, Profiler, StartupOptimizer};
use oxide::strmap::StrMap;
use oxide::table::Table;
use oxide::text::{is_whitespace, lines_of, trim_text};

#[test]
fn job_numbers() {
    let mut jm: JobManager<&str> = JobManager::new();
    assert_eq!(jm.next_id(), 1);
    assert_eq!(jm.add("sleep".to_string(), "p1"), 1);
    assert_eq!(jm.add("make".to_string(), "p2"), 2);
    assert_eq!(jm.add("tar".to_string(), "p3"), 3);
    jm.retain_running(&vec![true, false, true]);
    let ids: Vec<usize> = jm.jobs.iter().map(|j| j.id).collect();
    assert_eq!(ids, vec![1, 3]);
    assert_eq!(jm.jobs[1].name, "tar");
    assert_eq!(jm.jobs[1].child, "p3");
    assert_eq!(jm.add("x".to_string(), "p4"), 4);
    jm.retain_running(&vec![false, false, false]);
    assert!(jm.jobs.is_empty());
    assert_eq!(jm.next_id(), 5);
}

#[test]
fn table_rows_match_headers() {
    let mut t: Table<i64> = Table::new(vec!["a".to_string(), "b".to_string()]);
    t.add_row(vec![1, 2]);
    t.add_row(vec![3]);
    t.add_row(vec![4, 5, 6]);
    t.add_row(vec![7, 8]);
    assert_eq!(t.rows, vec![vec![1, 2], vec![7, 8]]);
}

#[test]
fn command_cache() {
    let mut c = CommandCache::new();
    assert_eq!(c.get("ls"), None);
    c.insert("ls".to_string(), PathBuf::from("/bin/ls"));
    c.insert("cat".to_string(), PathBuf::from("/bin/cat"));
    assert_eq!(c.get("ls"), Some(PathBuf::from("/bin/ls")));
    c.insert("ls".to_string(), PathBuf::from("/usr/bin/ls"));
    assert_eq!(c.get("ls"), Some(PathBuf::from("/usr/bin/ls")));
    assert_eq!(c.get("cat"), Some(PathBuf::from("/bin/cat")));
}

#[test]
fn profiler_measures_time() {
    let before = std::time::Instant::now();
    let p = Profiler::start();
    let first = p.elapsed();
    let second = p.elapsed();
    assert!(second >= first);
    assert!(before.elapsed() >= second);
}

#[test]
fn startup_defaults() {
    let s = StartupOptimizer::new();
    assert!(s.lazy_load_builtins);
    s.optimize_env();
}

#[test]
fn map_keeps_one_entry_per_key() {
    let mut m: StrMap<u32> = StrMap::new();
    m.insert("a".to_string(), 1);
    m.insert("b".to_string(), 2);
    m.insert("a".to_string(), 3);
    assert_eq!(m.len(), 2);
    assert_eq!(m.get("a"), Some(&3));
    assert!(m.contains_key("b"));
    assert!(!m.contains_key("c"));
    assert_eq!(m.entries(), &vec![("a".to_string(), 3), ("b".to_string(), 2)]);
}

#[test]
fn white_space_matches_std() {
    for code in 0u32..=0x10FFFF {
        if let Some(c) = char::from_u32(code) {
            assert_eq!(is_whitespace(c), c.is_whitespace(), "code point {:x}", code);
        }
    }
}

#[test]
fn text_helpers_match_std() {
    for s in ["", "  a b \u{3000}", "\u{a0}x\u{2029}", "abc", "\t\n"] {
        assert_eq!(trim_text(s), s.trim());
    }
    for s in ["", "a", "a\n", "a\r\nb", "a\r", "\n\n", "x\ny\r\n"] {
        let ours = lines_of(s);
        let std_lines: Vec<String> = s.lines().map(|l| l.to_string()).collect();
        assert_eq!(ours, std_lines);
    }
    assert_eq!(trim_text(" hé! "), "hé!");
}

#[test]
fn job_listing_lines() {
    let mut jm: JobManager<u32> = JobManager::new();
    assert_eq!(jm.listing(), vec!["No active background jobs.".to_string()]);
    jm.add("sleep".to_string(), 7);
    jm.add("make".to_string(), 8);
    jm.retain_running(&vec![false, true]);
    assert_eq!(jm.listing(), vec![format!("[{}] Running \t\t {}", 2, "make")]);
}

#[test]
fn map_duplicate_is_independent() {
    let mut m: StrMap<String> = StrMap::new();
    m.insert("ll".to_string(), "ls -la".to_string());
    m.insert("g".to_string(), "grep".to_string());
    let mut d = m.duplicate();
    assert_eq!(d.len(), 2);
    assert_eq!(d.get("ll"), Some(&"ls -la".to_string()));
    assert_eq!(d.get("g"), Some(&"grep".to_string()));
    d.insert("x".to_string(), "y".to_string());
    assert!(!m.contains_key("x"));
}
