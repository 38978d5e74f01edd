//! The decisions the executor takes for a command line: how the line is
//! rewritten, which statements run, which built-in a command names, and
//! which branch of an `if` is taken.
use vstd::prelude::*;

use crate::ast::{Condition, Statement};
use crate::compat::CompatMode;
use crate::compat::bash_mode::bash_translation;
use crate::compat::posix_mode::posix_translation;
use crate::expand::Environment;
use crate::strmap::StrMap;
use crate::text::{
    is_white_space, lemma_find_from_unique, lemma_prefix_len, trim_front,
    chars_of, copy_string, first_word, first_word_chars, replace_first, replace_first_chars,
    slice_chars, string_of, text_eq, trim, trim_chars, views,
};

verus! {

/// A line rewritten for the active mode.
pub open spec fn mode_translation(s: Seq<char>, mode: CompatMode) -> Seq<char> {
    match mode {
        CompatMode::Bash => bash_translation(s),
        CompatMode::Posix => posix_translation(s),
        CompatMode::Oxide => s,
    }
}

/// Rewrites a line for the active mode.
pub fn translate_for_mode(input: &str, mode: CompatMode) -> (r: String)
    ensures
        r@ == mode_translation(input@, mode),
{
    match mode {
        CompatMode::Bash => crate::compat::bash_mode::translate(input),
        CompatMode::Posix => crate::compat::posix_mode::translate(input),
        CompatMode::Oxide => copy_string(input),
    }
}

/// A line whose first word is an alias has the first occurrence of that word
/// replaced by the alias's value.
pub open spec fn alias_expansion(s: Seq<char>, aliases: Map<Seq<char>, String>) -> Seq<char> {
    match first_word(s) {
        Some(w) => if aliases.contains_key(w) {
            replace_first(s, w, aliases[w]@)
        } else {
            s
        },
        None => s,
    }
}

/// A line that starts with an alias has that word replaced by the alias's
/// value; the rest of the line stays.
pub proof fn law_alias_replaces_first_word(
    w: Seq<char>,
    rest: Seq<char>,
    aliases: Map<Seq<char>, String>,
)
    requires
        w.len() > 0,
        forall|i: int| 0 <= i < w.len() ==> !is_white_space(#[trigger] w[i]),
        rest.len() == 0 || is_white_space(rest[0]),
        aliases.contains_key(w),
    ensures
        alias_expansion(w + rest, aliases) == aliases[w]@ + rest,
{
    let s = w + rest;
    let p = |c: char| !is_white_space(c);
    assert(s[0] == w[0]);
    assert(trim_front(s) == s);
    assert forall|j: int| 0 <= j < w.len() implies p(#[trigger] s[j]) by {
        assert(s[j] == w[j]);
    }
    if rest.len() > 0 {
        assert(s[w.len() as int] == rest[0]);
    }
    lemma_prefix_len(s, p, w.len() as int);
    assert(s.take(w.len() as int) =~= w);
    assert(s.subrange(0, w.len() as int) =~= w);
    lemma_find_from_unique(s, w, 0, 0);
    assert(s.take(0) + aliases[w]@ + s.skip(w.len() as int) =~= aliases[w]@ + rest);
}

/// In the native mode, a line whose first word is no alias is run as typed.
pub proof fn law_native_line_unchanged(s: Seq<char>, aliases: Map<Seq<char>, String>)
    requires
        first_word(s) matches Some(w) ==> !aliases.contains_key(w),
    ensures
        processed_line(s, CompatMode::Oxide, aliases) == s,
{
}

/// Replaces the first word of a line by its alias, when it has one.
pub fn apply_alias(input: &str, aliases: &StrMap<String>) -> (r: String)
    requires
        aliases.wf(),
    ensures
        r@ == alias_expansion(input@, aliases@),
{
    let s = chars_of(input);
    match first_word_chars(&s) {
        Some(w) => {
            let word = string_of(&w);
            match aliases.get(word.as_str()) {
                Some(replacement) => {
                    let rep = chars_of(replacement.as_str());
                    let out = replace_first_chars(&s, &w, &rep);
                    string_of(&out)
                },
                None => string_of(&s),
            }
        },
        None => string_of(&s),
    }
}

/// A line in parentheses runs in a subshell.
pub open spec fn is_subshell(t: Seq<char>) -> bool {
    t.len() > 0 && t[0] == '(' && t.last() == ')'
}

/// What to do with a command line.
pub enum LinePlan {
    /// Run the text between the parentheses in a subshell.
    Subshell(String),
    /// Tokenize, parse and run the text.
    Run(String),
}

/// A line after mode translation and alias replacement.
pub open spec fn processed_line(s: Seq<char>, mode: CompatMode, aliases: Map<Seq<char>, String>) -> Seq<
    char,
> {
    alias_expansion(mode_translation(s, mode), aliases)
}

/// Translates a line for the mode, replaces an alias in first position,
/// and decides whether it runs in a subshell: a line that is in parentheses
/// once white space is trimmed runs its inner text in a subshell; any other
/// line runs as it is after the rewriting.
pub fn plan_line(input: &str, mode: CompatMode, aliases: &StrMap<String>) -> (r: LinePlan)
    requires
        aliases.wf(),
    ensures
        ({
            let p = processed_line(input@, mode, aliases@);
            let t = trim(p);
            match r {
                LinePlan::Subshell(inner) => is_subshell(t) && inner@ == t.subrange(
                    1,
                    t.len() - 1,
                ),
                LinePlan::Run(text) => !is_subshell(t) && text@ == p,
            }
        }),
{
    let translated = translate_for_mode(input, mode);
    let processed = apply_alias(translated.as_str(), aliases);
    let pc = chars_of(processed.as_str());
    let t = trim_chars(&pc);
    if t.len() > 0 && t[0] == '(' && t[t.len() - 1] == ')' {
        let inner = slice_chars(&t, 1, t.len() - 1);
        LinePlan::Subshell(string_of(&inner))
    } else {
        LinePlan::Run(processed)
    }
}

/// A statement after `&&` runs when the previous exit code is 0, one after
/// `||` when it is not; any other runs always.
pub open spec fn gate(condition: Condition, last_exit_code: i32) -> bool {
    match condition {
        Condition::And => last_exit_code == 0,
        Condition::Or => last_exit_code != 0,
        Condition::Always => true,
    }
}

/// Whether a statement runs, given the exit code of the statement before it.
pub fn gate_allows(condition: Condition, last_exit_code: i32) -> (r: bool)
    ensures
        r == gate(condition, last_exit_code),
{
    match condition {
        Condition::And => last_exit_code == 0,
        Condition::Or => last_exit_code != 0,
        Condition::Always => true,
    }
}

/// The programs whose arguments are passed on without expansion.
pub open spec fn skips_expansion_spec(p: Seq<char>) -> bool {
    p == "source"@ || p == "alias"@ || p == "unset"@ || p == "export"@
}

/// `source`, `alias`, `unset` and `export` take their arguments unexpanded.
pub fn skips_expansion(program: &str) -> (r: bool)
    ensures
        r == skips_expansion_spec(program@),
{
    text_eq(program, "source") || text_eq(program, "alias") || text_eq(program, "unset")
        || text_eq(program, "export")
}

/// What a command name refers to.
#[derive(Debug, Clone, Copy, PartialEq, Eq, Structural)]
pub enum Builtin {
    Mode,
    Alias,
    Cd,
    Pwd,
    Ls,
    Echo,
    Touch,
    Cat,
    Env,
    History,
    Grep,
    Jobs,
    Clear,
    Jail,
    Export,
    Find,
    Help,
    Kill,
    Open,
    Ps,
    Rm,
    Sleep,
    Top,
    Unset,
    Call,
    Import,
    Greet,
    Refresh,
    Source,
    /// Not a built-in: an operating-system program.
    External,
}

/// The built-in a command name selects.
pub open spec fn route_spec(p: Seq<char>) -> Builtin {
    if p == "mode"@ {
        Builtin::Mode
    } else if p == "alias"@ {
        Builtin::Alias
    } else if p == "cd"@ {
        Builtin::Cd
    } else if p == "pwd"@ {
        Builtin::Pwd
    } else if p == "ls"@ || p == "dir"@ {
        Builtin::Ls
    } else if p == "echo"@ {
        Builtin::Echo
    } else if p == "touch"@ {
        Builtin::Touch
    } else if p == "cat"@ {
        Builtin::Cat
    } else if p == "env"@ {
        Builtin::Env
    } else if p == "history"@ {
        Builtin::History
    } else if p == "grep"@ {
        Builtin::Grep
    } else if p == "jobs"@ {
        Builtin::Jobs
    } else if p == "clear"@ {
        Builtin::Clear
    } else if p == "jail"@ {
        Builtin::Jail
    } else if p == "export"@ {
        Builtin::Export
    } else if p == "find"@ {
        Builtin::Find
    } else if p == "help"@ {
        Builtin::Help
    } else if p == "kill"@ {
        Builtin::Kill
    } else if p == "open"@ {
        Builtin::Open
    } else if p == "ps"@ {
        Builtin::Ps
    } else if p == "rm"@ {
        Builtin::Rm
    } else if p == "sleep"@ {
        Builtin::Sleep
    } else if p == "top"@ {
        Builtin::Top
    } else if p == "unset"@ {
        Builtin::Unset
    } else if p == "call"@ {
        Builtin::Call
    } else if p == "import"@ {
        Builtin::Import
    } else if p == "hi"@ || p == "hello"@ {
        Builtin::Greet
    } else if p == "refresh"@ {
        Builtin::Refresh
    } else if p == "source"@ {
        Builtin::Source
    } else {
        Builtin::External
    }
}

/// The name of each built-in command, as typed (`External` has none).
pub open spec fn command_name(b: Builtin) -> Seq<char> {
    match b {
        Builtin::Mode => seq!['m', 'o', 'd', 'e'],
        Builtin::Alias => seq!['a', 'l', 'i', 'a', 's'],
        Builtin::Cd => seq!['c', 'd'],
        Builtin::Pwd => seq!['p', 'w', 'd'],
        Builtin::Ls => seq!['l', 's'],
        Builtin::Echo => seq!['e', 'c', 'h', 'o'],
        Builtin::Touch => seq!['t', 'o', 'u', 'c', 'h'],
        Builtin::Cat => seq!['c', 'a', 't'],
        Builtin::Env => seq!['e', 'n', 'v'],
        Builtin::History => seq!['h', 'i', 's', 't', 'o', 'r', 'y'],
        Builtin::Grep => seq!['g', 'r', 'e', 'p'],
        Builtin::Jobs => seq!['j', 'o', 'b', 's'],
        Builtin::Clear => seq!['c', 'l', 'e', 'a', 'r'],
        Builtin::Jail => seq!['j', 'a', 'i', 'l'],
        Builtin::Export => seq!['e', 'x', 'p', 'o', 'r', 't'],
        Builtin::Find => seq!['f', 'i', 'n', 'd'],
        Builtin::Help => seq!['h', 'e', 'l', 'p'],
        Builtin::Kill => seq!['k', 'i', 'l', 'l'],
        Builtin::Open => seq!['o', 'p', 'e', 'n'],
        Builtin::Ps => seq!['p', 's'],
        Builtin::Rm => seq!['r', 'm'],
        Builtin::Sleep => seq!['s', 'l', 'e', 'e', 'p'],
        Builtin::Top => seq!['t', 'o', 'p'],
        Builtin::Unset => seq!['u', 'n', 's', 'e', 't'],
        Builtin::Call => seq!['c', 'a', 'l', 'l'],
        Builtin::Import => seq!['i', 'm', 'p', 'o', 'r', 't'],
        Builtin::Greet => seq!['h', 'i'],
        Builtin::Refresh => seq!['r', 'e', 'f', 'r', 'e', 's', 'h'],
        Builtin::Source => seq!['s', 'o', 'u', 'r', 'c', 'e'],
        Builtin::External => Seq::empty(),
    }
}

/// The second name of a built-in, where it has one: `dir` for `ls` and
/// `hello` for the greeting.
pub open spec fn other_name(b: Builtin) -> Option<Seq<char>> {
    match b {
        Builtin::Ls => Some(seq!['d', 'i', 'r']),
        Builtin::Greet => Some(seq!['h', 'e', 'l', 'l', 'o']),
        _ => None,
    }
}

/// Each built-in's name selects that built-in, and a name selects a
/// built-in only when it is that built-in's name or second name; any other
/// name runs an outside program.
pub proof fn law_names_select_their_builtin(b: Builtin, p: Seq<char>)
    ensures
        !(b is External) ==> route_spec(command_name(b)) == b,
        other_name(b) matches Some(n) ==> route_spec(n) == b,
        route_spec(p) == b && !(b is External) ==> p == command_name(b) || other_name(b) == Some(p),
{
    reveal_strlit("mode");
    reveal_strlit("alias");
    reveal_strlit("cd");
    reveal_strlit("pwd");
    reveal_strlit("ls");
    reveal_strlit("echo");
    reveal_strlit("touch");
    reveal_strlit("cat");
    reveal_strlit("env");
    reveal_strlit("history");
    reveal_strlit("grep");
    reveal_strlit("jobs");
    reveal_strlit("clear");
    reveal_strlit("jail");
    reveal_strlit("export");
    reveal_strlit("find");
    reveal_strlit("help");
    reveal_strlit("kill");
    reveal_strlit("open");
    reveal_strlit("ps");
    reveal_strlit("rm");
    reveal_strlit("sleep");
    reveal_strlit("top");
    reveal_strlit("unset");
    reveal_strlit("call");
    reveal_strlit("import");
    reveal_strlit("hi");
    reveal_strlit("refresh");
    reveal_strlit("source");
    reveal_strlit("dir");
    reveal_strlit("hello");
    assert("mode"@.len() == 4 && "mode"@[0] == 'm' && "mode"@[1] == 'o');
    assert("alias"@.len() == 5 && "alias"@[0] == 'a' && "alias"@[1] == 'l');
    assert("cd"@.len() == 2 && "cd"@[0] == 'c' && "cd"@[1] == 'd');
    assert("pwd"@.len() == 3 && "pwd"@[0] == 'p' && "pwd"@[1] == 'w');
    assert("ls"@.len() == 2 && "ls"@[0] == 'l' && "ls"@[1] == 's');
    assert("echo"@.len() == 4 && "echo"@[0] == 'e' && "echo"@[1] == 'c');
    assert("touch"@.len() == 5 && "touch"@[0] == 't' && "touch"@[1] == 'o');
    assert("cat"@.len() == 3 && "cat"@[0] == 'c' && "cat"@[1] == 'a');
    assert("env"@.len() == 3 && "env"@[0] == 'e' && "env"@[1] == 'n');
    assert("history"@.len() == 7 && "history"@[0] == 'h' && "history"@[1] == 'i');
    assert("grep"@.len() == 4 && "grep"@[0] == 'g' && "grep"@[1] == 'r');
    assert("jobs"@.len() == 4 && "jobs"@[0] == 'j' && "jobs"@[1] == 'o');
    assert("clear"@.len() == 5 && "clear"@[0] == 'c' && "clear"@[1] == 'l');
    assert("jail"@.len() == 4 && "jail"@[0] == 'j' && "jail"@[1] == 'a');
    assert("export"@.len() == 6 && "export"@[0] == 'e' && "export"@[1] == 'x');
    assert("find"@.len() == 4 && "find"@[0] == 'f' && "find"@[1] == 'i');
    assert("help"@.len() == 4 && "help"@[0] == 'h' && "help"@[1] == 'e');
    assert("kill"@.len() == 4 && "kill"@[0] == 'k' && "kill"@[1] == 'i');
    assert("open"@.len() == 4 && "open"@[0] == 'o' && "open"@[1] == 'p');
    assert("ps"@.len() == 2 && "ps"@[0] == 'p' && "ps"@[1] == 's');
    assert("rm"@.len() == 2 && "rm"@[0] == 'r' && "rm"@[1] == 'm');
    assert("sleep"@.len() == 5 && "sleep"@[0] == 's' && "sleep"@[1] == 'l');
    assert("top"@.len() == 3 && "top"@[0] == 't' && "top"@[1] == 'o');
    assert("unset"@.len() == 5 && "unset"@[0] == 'u' && "unset"@[1] == 'n');
    assert("call"@.len() == 4 && "call"@[0] == 'c' && "call"@[1] == 'a');
    assert("import"@.len() == 6 && "import"@[0] == 'i' && "import"@[1] == 'm');
    assert("hi"@.len() == 2 && "hi"@[0] == 'h' && "hi"@[1] == 'i');
    assert("refresh"@.len() == 7 && "refresh"@[0] == 'r' && "refresh"@[1] == 'e');
    assert("source"@.len() == 6 && "source"@[0] == 's' && "source"@[1] == 'o');
    assert("dir"@.len() == 3 && "dir"@[0] == 'd' && "dir"@[1] == 'i');
    assert("hello"@.len() == 5 && "hello"@[0] == 'h' && "hello"@[1] == 'e');
    let d = seq!['d', 'i', 'r'];
    let h = seq!['h', 'e', 'l', 'l', 'o'];
    assert(d.len() == 3 && d[0] == 'd' && d[1] == 'i');
    assert(h.len() == 5 && h[0] == 'h' && h[1] == 'e');
    match b {
        Builtin::Mode => {
            assert(command_name(b) =~= "mode"@);
            assert(command_name(b).len() == 4 && command_name(b)[0] == 'm' && command_name(b)[1] == 'o');
        },
        Builtin::Alias => {
            assert(command_name(b) =~= "alias"@);
            assert(command_name(b).len() == 5 && command_name(b)[0] == 'a' && command_name(b)[1] == 'l');
        },
        Builtin::Cd => {
            assert(command_name(b) =~= "cd"@);
            assert(command_name(b).len() == 2 && command_name(b)[0] == 'c' && command_name(b)[1] == 'd');
        },
        Builtin::Pwd => {
            assert(command_name(b) =~= "pwd"@);
            assert(command_name(b).len() == 3 && command_name(b)[0] == 'p' && command_name(b)[1] == 'w');
        },
        Builtin::Ls => {
            assert(command_name(b) =~= "ls"@);
            assert(d =~= "dir"@);
            assert(command_name(b).len() == 2 && command_name(b)[0] == 'l' && command_name(b)[1] == 's');
        },
        Builtin::Echo => {
            assert(command_name(b) =~= "echo"@);
            assert(command_name(b).len() == 4 && command_name(b)[0] == 'e' && command_name(b)[1] == 'c');
        },
        Builtin::Touch => {
            assert(command_name(b) =~= "touch"@);
            assert(command_name(b).len() == 5 && command_name(b)[0] == 't' && command_name(b)[1] == 'o');
        },
        Builtin::Cat => {
            assert(command_name(b) =~= "cat"@);
            assert(command_name(b).len() == 3 && command_name(b)[0] == 'c' && command_name(b)[1] == 'a');
        },
        Builtin::Env => {
            assert(command_name(b) =~= "env"@);
            assert(command_name(b).len() == 3 && command_name(b)[0] == 'e' && command_name(b)[1] == 'n');
        },
        Builtin::History => {
            assert(command_name(b) =~= "history"@);
            assert(command_name(b).len() == 7 && command_name(b)[0] == 'h' && command_name(b)[1] == 'i');
        },
        Builtin::Grep => {
            assert(command_name(b) =~= "grep"@);
            assert(command_name(b).len() == 4 && command_name(b)[0] == 'g' && command_name(b)[1] == 'r');
        },
        Builtin::Jobs => {
            assert(command_name(b) =~= "jobs"@);
            assert(command_name(b).len() == 4 && command_name(b)[0] == 'j' && command_name(b)[1] == 'o');
        },
        Builtin::Clear => {
            assert(command_name(b) =~= "clear"@);
            assert(command_name(b).len() == 5 && command_name(b)[0] == 'c' && command_name(b)[1] == 'l');
        },
        Builtin::Jail => {
            assert(command_name(b) =~= "jail"@);
            assert(command_name(b).len() == 4 && command_name(b)[0] == 'j' && command_name(b)[1] == 'a');
        },
        Builtin::Export => {
            assert(command_name(b) =~= "export"@);
            assert(command_name(b).len() == 6 && command_name(b)[0] == 'e' && command_name(b)[1] == 'x');
        },
        Builtin::Find => {
            assert(command_name(b) =~= "find"@);
            assert(command_name(b).len() == 4 && command_name(b)[0] == 'f' && command_name(b)[1] == 'i');
        },
        Builtin::Help => {
            assert(command_name(b) =~= "help"@);
            assert(command_name(b).len() == 4 && command_name(b)[0] == 'h' && command_name(b)[1] == 'e');
        },
        Builtin::Kill => {
            assert(command_name(b) =~= "kill"@);
            assert(command_name(b).len() == 4 && command_name(b)[0] == 'k' && command_name(b)[1] == 'i');
        },
        Builtin::Open => {
            assert(command_name(b) =~= "open"@);
            assert(command_name(b).len() == 4 && command_name(b)[0] == 'o' && command_name(b)[1] == 'p');
        },
        Builtin::Ps => {
            assert(command_name(b) =~= "ps"@);
            assert(command_name(b).len() == 2 && command_name(b)[0] == 'p' && command_name(b)[1] == 's');
        },
        Builtin::Rm => {
            assert(command_name(b) =~= "rm"@);
            assert(command_name(b).len() == 2 && command_name(b)[0] == 'r' && command_name(b)[1] == 'm');
        },
        Builtin::Sleep => {
            assert(command_name(b) =~= "sleep"@);
            assert(command_name(b).len() == 5 && command_name(b)[0] == 's' && command_name(b)[1] == 'l');
        },
        Builtin::Top => {
            assert(command_name(b) =~= "top"@);
            assert(command_name(b).len() == 3 && command_name(b)[0] == 't' && command_name(b)[1] == 'o');
        },
        Builtin::Unset => {
            assert(command_name(b) =~= "unset"@);
            assert(command_name(b).len() == 5 && command_name(b)[0] == 'u' && command_name(b)[1] == 'n');
        },
        Builtin::Call => {
            assert(command_name(b) =~= "call"@);
            assert(command_name(b).len() == 4 && command_name(b)[0] == 'c' && command_name(b)[1] == 'a');
        },
        Builtin::Import => {
            assert(command_name(b) =~= "import"@);
            assert(command_name(b).len() == 6 && command_name(b)[0] == 'i' && command_name(b)[1] == 'm');
        },
        Builtin::Greet => {
            assert(command_name(b) =~= "hi"@);
            assert(h =~= "hello"@);
            assert(command_name(b).len() == 2 && command_name(b)[0] == 'h' && command_name(b)[1] == 'i');
        },
        Builtin::Refresh => {
            assert(command_name(b) =~= "refresh"@);
            assert(command_name(b).len() == 7 && command_name(b)[0] == 'r' && command_name(b)[1] == 'e');
        },
        Builtin::Source => {
            assert(command_name(b) =~= "source"@);
            assert(command_name(b).len() == 6 && command_name(b)[0] == 's' && command_name(b)[1] == 'o');
        },
        Builtin::External => {},
    }
}

/// The built-in a command name selects.
pub fn route(program: &str) -> (r: Builtin)
    ensures
        r == route_spec(program@),
{
    if text_eq(program, "mode") {
        Builtin::Mode
    } else if text_eq(program, "alias") {
        Builtin::Alias
    } else if text_eq(program, "cd") {
        Builtin::Cd
    } else if text_eq(program, "pwd") {
        Builtin::Pwd
    } else if text_eq(program, "ls") || text_eq(program, "dir") {
        Builtin::Ls
    } else if text_eq(program, "echo") {
        Builtin::Echo
    } else if text_eq(program, "touch") {
        Builtin::Touch
    } else if text_eq(program, "cat") {
        Builtin::Cat
    } else if text_eq(program, "env") {
        Builtin::Env
    } else if text_eq(program, "history") {
        Builtin::History
    } else if text_eq(program, "grep") {
        Builtin::Grep
    } else if text_eq(program, "jobs") {
        Builtin::Jobs
    } else if text_eq(program, "clear") {
        Builtin::Clear
    } else if text_eq(program, "jail") {
        Builtin::Jail
    } else if text_eq(program, "export") {
        Builtin::Export
    } else if text_eq(program, "find") {
        Builtin::Find
    } else if text_eq(program, "help") {
        Builtin::Help
    } else if text_eq(program, "kill") {
        Builtin::Kill
    } else if text_eq(program, "open") {
        Builtin::Open
    } else if text_eq(program, "ps") {
        Builtin::Ps
    } else if text_eq(program, "rm") {
        Builtin::Rm
    } else if text_eq(program, "sleep") {
        Builtin::Sleep
    } else if text_eq(program, "top") {
        Builtin::Top
    } else if text_eq(program, "unset") {
        Builtin::Unset
    } else if text_eq(program, "call") {
        Builtin::Call
    } else if text_eq(program, "import") {
        Builtin::Import
    } else if text_eq(program, "hi") || text_eq(program, "hello") {
        Builtin::Greet
    } else if text_eq(program, "refresh") {
        Builtin::Refresh
    } else if text_eq(program, "source") {
        Builtin::Source
    } else {
        Builtin::External
    }
}

/// The mode a `mode` argument names.
pub open spec fn mode_named(n: Seq<char>) -> Option<CompatMode> {
    if n == "bash"@ {
        Some(CompatMode::Bash)
    } else if n == "posix"@ {
        Some(CompatMode::Posix)
    } else if n == "oxide"@ {
        Some(CompatMode::Oxide)
    } else {
        None
    }
}

/// The mode that `mode NAME` switches to; `None` for an unknown name.
pub fn mode_from_name(name: &str) -> (r: Option<CompatMode>)
    ensures
        r == mode_named(name@),
{
    if text_eq(name, "bash") {
        Some(CompatMode::Bash)
    } else if text_eq(name, "posix") {
        Some(CompatMode::Posix)
    } else if text_eq(name, "oxide") {
        Some(CompatMode::Oxide)
    } else {
        None
    }
}

/// The mode and the exit code that the engine carries from one statement
/// to the next.
pub struct ShellStatus {
    pub mode: CompatMode,
    pub last_exit_code: i32,
}

/// The commands whose exit code is fixed or kept, whatever their work
/// reports: `mode`, `call`, the greeting, `jobs`, `echo` and `import`.
pub open spec fn code_is_set_aside(b: Builtin) -> bool {
    b is Mode || b is Call || b is Greet || b is Jobs || b is Echo || b is Import
}

/// The exit code after a command of kind `b` whose work reported `work`
/// (`None` when it reported none): `mode`, `call`, the greeting, `jobs` and
/// `echo` always succeed, `import` leaves the code as it was, and any other
/// command (`jail` among them) sets the code its work reported, if any.
pub open spec fn code_after(b: Builtin, previous: i32, work: Option<i32>) -> i32 {
    match b {
        Builtin::Mode | Builtin::Call | Builtin::Greet | Builtin::Jobs | Builtin::Echo => 0,
        Builtin::Import => previous,
        _ => match work {
            Some(c) => c,
            None => previous,
        },
    }
}

/// The mode after a command of kind `b` with arguments `args`: `mode NAME`
/// switches to a known mode, `refresh` goes back to the native mode, and
/// nothing else changes it.
pub open spec fn mode_after(b: Builtin, args: Seq<Seq<char>>, mode: CompatMode) -> CompatMode {
    match b {
        Builtin::Mode => if args.len() > 0 && mode_named(args[0]) is Some {
            mode_named(args[0])->0
        } else {
            mode
        },
        Builtin::Refresh => CompatMode::Oxide,
        _ => mode,
    }
}

impl ShellStatus {
    /// The status a shell starts with: the native mode and exit code 0.
    pub fn new() -> (r: Self)
        ensures
            r.mode == CompatMode::Oxide,
            r.last_exit_code == 0,
    {
        ShellStatus { mode: CompatMode::Oxide, last_exit_code: 0 }
    }

    /// Whether a statement joined by `condition` runs: after `&&` only when
    /// the last exit code is 0, after `||` only when it is not.
    pub fn admits(&self, condition: Condition) -> (r: bool)
        ensures
            r == gate(condition, self.last_exit_code),
    {
        gate_allows(condition, self.last_exit_code)
    }

    /// Records that a command of kind `builtin` with arguments `args` has
    /// done its work, which reported `work`: sets the mode and the exit code
    /// that follow it.
    pub fn finish(&mut self, builtin: Builtin, args: &Vec<String>, work: Option<i32>)
        ensures
            final(self).mode == mode_after(builtin, views(args@), old(self).mode),
            final(self).last_exit_code == code_after(builtin, old(self).last_exit_code, work),
    {
        match builtin {
            Builtin::Mode => {
                if args.len() > 0 {
                    assert(views(args@)[0] == args@[0]@);
                    match mode_from_name(args[0].as_str()) {
                        Some(m) => {
                            self.mode = m;
                        },
                        None => {},
                    }
                }
                self.last_exit_code = 0;
            },
            Builtin::Call | Builtin::Greet | Builtin::Jobs | Builtin::Echo => {
                self.last_exit_code = 0;
            },
            Builtin::Import => {},
            _ => {
                if builtin == Builtin::Refresh {
                    self.mode = CompatMode::Oxide;
                }
                match work {
                    Some(c) => {
                        self.last_exit_code = c;
                    },
                    None => {},
                }
            },
        }
    }
}

/// A command whose work reports exit code `c` decides the statement after
/// it: one joined by `&&` runs exactly when `c` is 0, one joined by `||`
/// exactly when it is not (commands whose code is fixed or kept excepted).
pub proof fn law_next_statement_follows_code(b: Builtin, previous: i32, c: i32)
    requires
        !code_is_set_aside(b),
    ensures
        gate(Condition::And, code_after(b, previous, Some(c))) == (c == 0),
        gate(Condition::Or, code_after(b, previous, Some(c))) == (c != 0),
        gate(Condition::Always, code_after(b, previous, Some(c))),
{
}

/// Which statements of a line run, given the condition that joins each to
/// the one before it, the exit code each reports when it runs, and the exit
/// code before the line: a statement runs when its condition admits the
/// exit code left by the last statement that ran (or the starting code),
/// and a skipped statement leaves that code as it was.
pub open spec fn statements_run(conds: Seq<Condition>, codes: Seq<i32>, start: i32) -> Seq<bool>
    decreases conds.len(),
{
    if conds.len() == 0 {
        Seq::empty()
    } else {
        let r = gate(conds[0], start);
        seq![r] + statements_run(
            conds.drop_first(),
            codes.drop_first(),
            if r {
                codes[0]
            } else {
                start
            },
        )
    }
}

/// The statements the engine runs, one step at a time: each is admitted by
/// [`ShellStatus::admits`], and [`ShellStatus::finish`] then sets the code
/// from the command's kind and its reported code.
pub open spec fn engine_runs(
    conds: Seq<Condition>,
    kinds: Seq<Builtin>,
    codes: Seq<i32>,
    last: i32,
) -> Seq<bool>
    decreases conds.len(),
{
    if conds.len() == 0 {
        Seq::empty()
    } else {
        let r = gate(conds[0], last);
        seq![r] + engine_runs(
            conds.drop_first(),
            kinds.drop_first(),
            codes.drop_first(),
            if r {
                code_after(kinds[0], last, Some(codes[0]))
            } else {
                last
            },
        )
    }
}

/// Across a whole line of commands that report their own exit codes, the
/// engine's steps run exactly the statements that the `&&` and `||` rules
/// select: each statement after `&&` runs when the last command that ran
/// succeeded, each after `||` when it failed, and skipped ones change nothing.
pub proof fn law_line_gates(conds: Seq<Condition>, kinds: Seq<Builtin>, codes: Seq<i32>, start: i32)
    requires
        kinds.len() == conds.len(),
        codes.len() == conds.len(),
        forall|i: int| 0 <= i < kinds.len() ==> !code_is_set_aside(#[trigger] kinds[i]),
    ensures
        engine_runs(conds, kinds, codes, start) == statements_run(conds, codes, start),
    decreases conds.len(),
{
    if conds.len() > 0 {
        let k = kinds.drop_first();
        assert forall|i: int| 0 <= i < k.len() implies !code_is_set_aside(#[trigger] k[i]) by {
            assert(k[i] == kinds[i + 1]);
        }
        assert(!code_is_set_aside(kinds[0]));
        let r = gate(conds[0], start);
        let next = if r {
            codes[0]
        } else {
            start
        };
        law_line_gates(conds.drop_first(), k, codes.drop_first(), next);
    }
}

/// The arguments a built-in needs at least: `find` and `grep` two, `touch`,
/// `kill`, `open`, `rm`, `sleep` and `unset` one, the others none.
pub open spec fn operands_needed(b: Builtin) -> nat {
    match b {
        Builtin::Find | Builtin::Grep => 2,
        Builtin::Touch | Builtin::Kill | Builtin::Open | Builtin::Rm | Builtin::Sleep
        | Builtin::Unset => 1,
        _ => 0,
    }
}

/// Whether a built-in was given too few arguments to do its work.
pub fn missing_operands(b: Builtin, args: &Vec<String>) -> (r: bool)
    ensures
        r == (args@.len() < operands_needed(b)),
{
    let needed: usize = match b {
        Builtin::Find | Builtin::Grep => 2,
        Builtin::Touch | Builtin::Kill | Builtin::Open | Builtin::Rm | Builtin::Sleep
        | Builtin::Unset => 1,
        _ => 0,
    };
    args.len() < needed
}

/// The exit code `source` reports when it is given no file: 1 inside a
/// sourced script or block, none (the code stays) on a command line.
pub fn source_without_file(nested: bool) -> (r: Option<i32>)
    ensures
        r == (if nested {
            Some(1i32)
        } else {
            None
        }),
{
    if nested {
        Some(1)
    } else {
        None
    }
}

/// A command whose last argument is `&` runs in the background, without
/// that argument.
pub open spec fn background_split(args: Seq<Seq<char>>) -> (bool, Seq<Seq<char>>) {
    if args.len() > 0 && args.last() == "&"@ {
        (true, args.drop_last())
    } else {
        (false, args)
    }
}

/// Splits off a trailing `&`: whether the command runs in the background,
/// and the arguments it runs with.
pub fn split_background(args: Vec<String>) -> (r: (bool, Vec<String>))
    ensures
        (r.0, views(r.1@)) == background_split(views(args@)),
{
    let mut args = args;
    let n = args.len();
    if n > 0 && text_eq(args[n - 1].as_str(), "&") {
        let ghost before = views(args@);
        args.pop();
        assert(views(args@) =~= before.drop_last());
        (true, args)
    } else {
        (false, args)
    }
}

/// The value an `if` condition stands for: `$NAME` reads the variable (`0`
/// when unset); any other text stands for itself.
pub open spec fn condition_value(c: Seq<char>, env: Map<Seq<char>, Seq<char>>) -> Seq<char> {
    if c.len() > 0 && c[0] == '$' {
        let name = c.skip(1);
        if env.contains_key(name) {
            env[name]
        } else {
            seq!['0']
        }
    } else {
        c
    }
}

/// A value is true unless it is empty, `0` or `false`.
pub open spec fn truthy(v: Seq<char>) -> bool {
    v.len() > 0 && v != seq!['0'] && v != seq!['f', 'a', 'l', 's', 'e']
}

/// Evaluates the condition of an `if` or `elif`.
pub fn evaluate_if_condition(condition: &str, env: &Environment) -> (r: bool)
    requires
        env.wf(),
    ensures
        r == truthy(condition_value(condition@, env@)),
{
    let c = chars_of(condition);
    let val: Vec<char> = if c.len() > 0 && c[0] == '$' {
        let name_chars = slice_chars(&c, 1, c.len());
        let name = string_of(&name_chars);
        assert(name@ =~= condition@.skip(1));
        match env.get(name.as_str()) {
            Some(v) => chars_of(v.as_str()),
            None => {
                let mut z: Vec<char> = Vec::new();
                z.push('0');
                assert(z@ =~= seq!['0']);
                z
            },
        }
    } else {
        c
    };
    let mut zero: Vec<char> = Vec::new();
    zero.push('0');
    let mut f: Vec<char> = Vec::new();
    f.push('f');
    f.push('a');
    f.push('l');
    f.push('s');
    f.push('e');
    assert(zero@ =~= seq!['0']);
    assert(f@ =~= seq!['f', 'a', 'l', 's', 'e']);
    val.len() > 0 && !crate::text::chars_eq(&val, &zero) && !crate::text::chars_eq(&val, &f)
}

/// The branch of an `if` statement that runs.
#[derive(Debug, Clone, Copy, PartialEq, Eq, Structural)]
pub enum Branch {
    /// The `if` body.
    Body,
    /// The body of the `elif` at this index.
    ElseIf(usize),
    /// The `else` body.
    Else,
    /// No branch.
    Nothing,
}

/// Chooses the branch of an `if` statement: the body when its condition is
/// true, else the first `elif` whose condition is true, else the `else` body
/// when there is one.
pub fn choose_branch(
    condition: &str,
    else_if: &Vec<(String, Vec<Statement>)>,
    has_else: bool,
    env: &Environment,
) -> (r: Branch)
    requires
        env.wf(),
    ensures
        (r == Branch::Body) == truthy(condition_value(condition@, env@)),
        r matches Branch::ElseIf(i) ==> i < else_if@.len() && truthy(
            condition_value(else_if@[i as int].0@, env@),
        ) && forall|j: int|
            0 <= j < i ==> !truthy(condition_value(#[trigger] else_if@[j].0@, env@)),
        (r == Branch::Else || r == Branch::Nothing) ==> forall|j: int|
            0 <= j < else_if@.len() ==> !truthy(condition_value(#[trigger] else_if@[j].0@, env@)),
        r == Branch::Else ==> has_else,
        r == Branch::Nothing ==> !has_else && !truthy(condition_value(condition@, env@)),
{
    if evaluate_if_condition(condition, env) {
        return Branch::Body;
    }
    let mut i: usize = 0;
    while i < else_if.len()
        invariant
            i <= else_if@.len(),
            env.wf(),
            !truthy(condition_value(condition@, env@)),
            forall|j: int| 0 <= j < i ==> !truthy(condition_value(#[trigger] else_if@[j].0@, env@)),
        decreases else_if.len() - i,
    {
        if evaluate_if_condition(else_if[i].0.as_str(), env) {
            return Branch::ElseIf(i);
        }
        i = i + 1;
    }
    if has_else {
        Branch::Else
    } else {
        Branch::Nothing
    }
}

/// What the read loop does with a line it read.
pub enum LineKind {
    /// Nothing to run.
    Skip,
    /// Leave the shell.
    Exit,
    /// Run this (trimmed) text.
    Run(String),
}

/// A line typed at the prompt: blank lines are skipped, `exit` leaves, any
/// other line runs without its surrounding white space.
pub fn classify_prompt_line(line: &str) -> (r: LineKind)
    ensures
        match r {
            LineKind::Skip => trim(line@).len() == 0,
            LineKind::Exit => trim(line@) == "exit"@,
            LineKind::Run(t) => t@ == trim(line@) && t@.len() > 0 && t@ != "exit"@,
        },
{
    let t = crate::text::trim_text(line);
    if t.as_str().unicode_len() == 0 {
        LineKind::Skip
    } else if text_eq(t.as_str(), "exit") {
        LineKind::Exit
    } else {
        LineKind::Run(t)
    }
}

/// A line of a script: blank lines and `#` comments are skipped, `exit`
/// stops the script, any other line runs without its surrounding white space.
pub fn classify_script_line(line: &str) -> (r: LineKind)
    ensures
        match r {
            LineKind::Skip => trim(line@).len() == 0 || trim(line@)[0] == '#',
            LineKind::Exit => trim(line@) == "exit"@,
            LineKind::Run(t) => t@ == trim(line@) && t@.len() > 0 && t@[0] != '#' && t@
                != "exit"@,
        },
{
    let tc = trim_chars(&chars_of(line));
    if tc.len() == 0 || tc[0] == '#' {
        LineKind::Skip
    } else {
        let t = string_of(&tc);
        if text_eq(t.as_str(), "exit") {
            LineKind::Exit
        } else {
            LineKind::Run(t)
        }
    }
}

/// The texts a script runs, as its read loop takes the lines one by one
/// with [`classify_script_line`]: a blank or `#` line is skipped, the first
/// `exit` line ends the script, and any other line runs trimmed.
pub open spec fn script_run(lines: Seq<Seq<char>>) -> Seq<Seq<char>>
    decreases lines.len(),
{
    if lines.len() == 0 {
        Seq::empty()
    } else {
        let t = trim(lines[0]);
        if t.len() == 0 || t[0] == '#' {
            script_run(lines.drop_first())
        } else if t == "exit"@ {
            Seq::empty()
        } else {
            seq![t] + script_run(lines.drop_first())
        }
    }
}

/// The trimmed lines that are neither blank nor `#` comments, in order.
pub open spec fn script_commands(lines: Seq<Seq<char>>) -> Seq<Seq<char>>
    decreases lines.len(),
{
    if lines.len() == 0 {
        Seq::empty()
    } else {
        let t = trim(lines[0]);
        if t.len() == 0 || t[0] == '#' {
            script_commands(lines.drop_first())
        } else {
            seq![t] + script_commands(lines.drop_first())
        }
    }
}

/// The index of the first line that reads `exit` once trimmed, or the
/// number of lines when none does.
pub open spec fn first_exit(lines: Seq<Seq<char>>) -> int
    decreases lines.len(),
{
    if lines.len() == 0 {
        0
    } else if trim(lines[0]) == "exit"@ {
        0
    } else {
        1 + first_exit(lines.drop_first())
    }
}

/// A script runs, in order, exactly its trimmed lines that are neither blank
/// nor `#` comments among those before the first `exit` line.
pub proof fn law_script_runs_lines_before_exit(lines: Seq<Seq<char>>)
    ensures
        0 <= first_exit(lines) <= lines.len(),
        script_run(lines) == script_commands(lines.take(first_exit(lines))),
        forall|i: int| 0 <= i < first_exit(lines) ==> trim(#[trigger] lines[i]) != "exit"@,
    decreases lines.len(),
{
    reveal_strlit("exit");
    if lines.len() == 0 {
        assert(lines.take(0) =~= Seq::<Seq<char>>::empty());
    } else {
        let rest = lines.drop_first();
        law_script_runs_lines_before_exit(rest);
        let t = trim(lines[0]);
        if t == "exit"@ {
            assert(lines.take(0) =~= Seq::<Seq<char>>::empty());
        } else {
            let e = first_exit(rest);
            assert(lines.take(1 + e).drop_first() =~= rest.take(e));
            assert(lines.take(1 + e)[0] == lines[0]);
            assert forall|i: int| 0 <= i < first_exit(lines) implies trim(#[trigger] lines[i])
                != "exit"@ by {
                if i > 0 {
                    assert(lines[i] == rest[i - 1]);
                }
            }
        }
    }
}

} // verus!
