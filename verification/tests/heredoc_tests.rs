use oxide::heredoc::{accept_line, detect};

#[test]
fn test_detect_heredoc_simple() {
    let (cmd, delim) = detect("cat << EOF").unwrap();
    assert_eq!(cmd, "cat");
    assert_eq!(delim, "EOF");
}

#[test]
fn test_detect_heredoc_complex() {
    // Even if there are spaces, it should find the first word after <<
    let (cmd, delim) = detect("grep 'test'   <<    END_OF_TEXT").unwrap();
    assert_eq!(cmd, "grep 'test'");
    assert_eq!(delim, "END_OF_TEXT");
}

#[test]
fn test_no_heredoc() {
    assert!(detect("echo 'no heredoc here'").is_none());
}

#[test]
fn heredoc_without_delimiter_is_none() {
    assert!(detect("cat <<   ").is_none());
}

#[test]
fn heredoc_takes_first_word_after_operator() {
    let (cmd, delim) = detect("  sort<<END extra words").unwrap();
    assert_eq!(cmd, "sort");
    assert_eq!(delim, "END");
}

#[test]
fn heredoc_uses_first_operator() {
    let (cmd, delim) = detect("a << B << C").unwrap();
    assert_eq!(cmd, "a");
    assert_eq!(delim, "B");
}

#[test]
fn payload_collects_lines_until_delimiter() {
    let mut payload = String::new();
    assert!(!accept_line(&mut payload, "first line\n", "EOF"));
    assert!(!accept_line(&mut payload, "  EOF  \n", "EOF"));
    assert!(accept_line(&mut payload, "EOF \r\n", "EOF"));
    assert_eq!(payload, "first line\n  EOF  \n");
}

#[test]
fn heredoc_needs_a_word_after_the_operator() {
    assert!(detect("cat <<  ").is_none());
    assert!(detect("cat <<").is_none());
    let (_, d) = detect("cat <<\tEND more").unwrap();
    assert_eq!(d, "END");
    assert!(!d.is_empty() && !d.chars().any(|c| c.is_whitespace()));
}
