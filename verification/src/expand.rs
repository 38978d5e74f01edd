//! Expansion of `$VARIABLES`, `~` and glob patterns in command arguments.
use vstd::prelude::*;

use crate::strmap::StrMap;
use crate::text::{
    chars_of, lemma_prefix_len, lemma_prefix_len_bound, prefix_len, replace_all,
    replace_all_chars, slice_chars, string_of, append_chars, copy_string, views,
};

verus! {

/// A snapshot of environment variables, read by expansion.
pub struct Environment {
    vars: StrMap<String>,
}

impl View for Environment {
    type V = Map<Seq<char>, Seq<char>>;

    closed spec fn view(&self) -> Map<Seq<char>, Seq<char>> {
        self.vars@.map_values(|v: String| v@)
    }
}

impl Environment {
    pub closed spec fn wf(&self) -> bool {
        self.vars.wf()
    }

    /// An environment with no variables.
    pub fn new() -> (r: Self)
        ensures
            r.wf(),
            r@ == Map::<Seq<char>, Seq<char>>::empty(),
    {
        let r = Environment { vars: StrMap::new() };
        assert(r@ =~= Map::<Seq<char>, Seq<char>>::empty());
        r
    }

    /// Sets a variable.
    pub fn set(&mut self, name: String, value: String)
        requires
            old(self).wf(),
        ensures
            final(self).wf(),
            final(self)@ == old(self)@.insert(name@, value@),
    {
        let ghost n = name@;
        let ghost v = value@;
        self.vars.insert(name, value);
        assert(self@ =~= old(self)@.insert(n, v));
    }

    /// The value of a variable.
    pub fn get(&self, name: &str) -> (r: Option<String>)
        requires
            self.wf(),
        ensures
            r matches Some(v) ==> self@.contains_key(name@) && v@ == self@[name@],
            r is None ==> !self@.contains_key(name@),
    {
        match self.vars.get(name) {
            Some(v) => Some(copy_string(v.as_str())),
            None => None,
        }
    }
}

/// The value of `char::is_alphanumeric` for `c` (the Unicode `Alphabetic`
/// property or a numeric general category).
pub uninterp spec fn unicode_alphanumeric(c: char) -> bool;

/// `char::is_alphanumeric`.
#[verifier::external_body]
fn is_alphanumeric(c: char) -> (r: bool)
    ensures
        r == unicode_alphanumeric(c),
{
    c.is_alphanumeric()
}

/// A character of a variable name.
pub open spec fn is_name_char(c: char) -> bool {
    unicode_alphanumeric(c) || c == '_'
}

pub open spec fn name_pred() -> spec_fn(char) -> bool {
    |c: char| is_name_char(c)
}

pub open spec fn name_home() -> Seq<char> {
    seq!['H', 'O', 'M', 'E']
}

pub open spec fn name_userprofile() -> Seq<char> {
    seq!['U', 'S', 'E', 'R', 'P', 'R', 'O', 'F', 'I', 'L', 'E']
}

/// What `~` expands to: `HOME`, else `USERPROFILE`, else `~` itself.
pub open spec fn home_text(env: Map<Seq<char>, Seq<char>>) -> Seq<char> {
    if env.contains_key(name_home()) {
        env[name_home()]
    } else if env.contains_key(name_userprofile()) {
        env[name_userprofile()]
    } else {
        seq!['~']
    }
}

/// The value of a variable, or nothing when it is not set.
pub open spec fn var_text(env: Map<Seq<char>, Seq<char>>, name: Seq<char>) -> Seq<char> {
    if env.contains_key(name) {
        env[name]
    } else {
        Seq::empty()
    }
}

/// `s` with each `$NAME` replaced by the variable's value (nothing when it is
/// unset), and each `~` by the home directory. A `$` not followed by a name
/// character stays.
pub open spec fn expansion(s: Seq<char>, env: Map<Seq<char>, Seq<char>>) -> Seq<char>
    decreases s.len(),
{
    if s.len() == 0 {
        Seq::empty()
    } else if s[0] == '$' {
        let n = prefix_len(s.drop_first(), name_pred());
        proof {
            lemma_prefix_len_bound(s.drop_first(), name_pred());
        }
        if n == 0 {
            seq!['$'] + expansion(s.drop_first(), env)
        } else {
            var_text(env, s.subrange(1, 1 + n as int)) + expansion(s.skip(1 + n as int), env)
        }
    } else if s[0] == '~' {
        home_text(env) + expansion(s.drop_first(), env)
    } else {
        seq![s[0]] + expansion(s.drop_first(), env)
    }
}

/// Text without `$` and `~` expands to itself, whatever the environment.
pub proof fn law_expansion_plain_text(s: Seq<char>, env: Map<Seq<char>, Seq<char>>)
    requires
        forall|i: int| 0 <= i < s.len() ==> #[trigger] s[i] != '$' && s[i] != '~',
    ensures
        expansion(s, env) == s,
    decreases s.len(),
{
    if s.len() > 0 {
        let t = s.drop_first();
        assert forall|i: int| 0 <= i < t.len() implies #[trigger] t[i] != '$' && t[i] != '~' by {
            assert(t[i] == s[i + 1]);
        }
        law_expansion_plain_text(t, env);
        assert(s[0] != '$' && s[0] != '~');
        assert(seq![s[0]] + t =~= s);
    }
}

/// An unset variable expands to nothing: `$NAME` followed by a character
/// that cannot continue the name is removed.
pub proof fn law_unset_variable_removed(
    name: Seq<char>,
    rest: Seq<char>,
    env: Map<Seq<char>, Seq<char>>,
)
    requires
        name.len() > 0,
        forall|i: int| 0 <= i < name.len() ==> is_name_char(#[trigger] name[i]),
        rest.len() == 0 || !is_name_char(rest[0]),
        !env.contains_key(name),
    ensures
        expansion(seq!['$'] + name + rest, env) == expansion(rest, env),
{
    let s = seq!['$'] + name + rest;
    let u = s.drop_first();
    assert(u =~= name + rest);
    assert forall|k: int| 0 <= k < name.len() implies #[trigger] name_pred()(u[k]) by {
        assert(u[k] == name[k]);
    }
    if rest.len() > 0 {
        assert(u[name.len() as int] == rest[0]);
    }
    lemma_prefix_len(u, name_pred(), name.len() as int);
    assert(s.subrange(1, 1 + name.len() as int) =~= name);
    assert(s.skip(1 + name.len() as int) =~= rest);
    assert(var_text(env, name) =~= Seq::<char>::empty());
}

/// A word that is no glob pattern expands to itself, whatever was found.
pub proof fn law_plain_word_not_globbed(pattern: Seq<char>, found: Seq<Seq<char>>)
    requires
        !has_glob_meta(pattern),
    ensures
        glob_expansion(pattern, found) == seq![pattern],
{
}

/// Expands `$VARIABLES` and `~` in `input`, reading variables from `env`.
pub fn expand_text(input: &str, env: &Environment) -> (r: String)
    requires
        env.wf(),
    ensures
        r@ == expansion(input@, env@),
{
    let s = chars_of(input);
    let mut result: Vec<char> = Vec::new();
    let mut i: usize = 0;
    proof {
        reveal_strlit("HOME");
        reveal_strlit("USERPROFILE");
        assert("HOME"@ =~= name_home());
        assert("USERPROFILE"@ =~= name_userprofile());
    }
    assert(s@.skip(0) =~= s@);
    assert(result@ + expansion(s@, env@) =~= expansion(s@, env@));
    while i < s.len()
        invariant
            i <= s.len(),
            env.wf(),
            "HOME"@ == name_home(),
            "USERPROFILE"@ == name_userprofile(),
            expansion(s@, env@) == result@ + expansion(s@.skip(i as int), env@),
        decreases s.len() - i,
    {
        let ghost t = s@.skip(i as int);
        let ghost before = result@;
        let c = s[i];
        assert(t[0] == c);
        assert(t.drop_first() =~= s@.skip(i + 1));
        if c == '$' {
            let start = i + 1;
            let mut j = start;
            while j < s.len() && (is_alphanumeric(s[j]) || s[j] == '_')
                invariant
                    start <= j <= s.len(),
                    forall|k: int| start <= k < j ==> is_name_char(#[trigger] s@[k]),
                decreases s.len() - j,
            {
                j = j + 1;
            }
            proof {
                let u = t.drop_first();
                assert forall|k: int| 0 <= k < j - start implies #[trigger] name_pred()(u[k]) by {
                    assert(u[k] == s@[start + k]);
                }
                if j < s.len() {
                    assert(u[j - start] == s@[j as int]);
                }
                lemma_prefix_len(u, name_pred(), j - start);
            }
            if j == start {
                result.push('$');
                i = i + 1;
                assert(result@ + expansion(s@.skip(i as int), env@) =~= before + expansion(
                    t,
                    env@,
                ));
            } else {
                let name_chars = slice_chars(&s, start, j);
                let name = string_of(&name_chars);
                assert(name@ =~= t.subrange(1, 1 + (j - start)));
                match env.get(name.as_str()) {
                    Some(value) => {
                        let vc = chars_of(value.as_str());
                        append_chars(&mut result, &vc);
                    },
                    None => {},
                }
                assert(t.skip(1 + (j - start)) =~= s@.skip(j as int));
                i = j;
                assert(result@ + expansion(s@.skip(i as int), env@) =~= before + expansion(
                    t,
                    env@,
                ));
            }
        } else if c == '~' {
            let home = match env.get("HOME") {
                Some(h) => h,
                None => match env.get("USERPROFILE") {
                    Some(h) => h,
                    None => {
                        let mut v: Vec<char> = Vec::new();
                        v.push('~');
                        string_of(&v)
                    },
                },
            };
            let hc = chars_of(home.as_str());
            append_chars(&mut result, &hc);
            assert(hc@ =~= home_text(env@));
            i = i + 1;
            assert(result@ + expansion(s@.skip(i as int), env@) =~= before + expansion(t, env@));
        } else {
            result.push(c);
            i = i + 1;
            assert(result@ + expansion(s@.skip(i as int), env@) =~= before + expansion(t, env@));
        }
    }
    assert(s@.skip(i as int) =~= Seq::<char>::empty());
    assert(result@ + Seq::<char>::empty() =~= result@);
    string_of(&result)
}

/// A glob pattern: it holds `*`, `?` or `[`.
pub open spec fn has_glob_meta(s: Seq<char>) -> bool {
    exists|i: int| 0 <= i < s.len() && (s[i] == '*' || s[i] == '?' || s[i] == '[')
}

/// The arguments a word expands to, given the paths that the pattern
/// matched (`found`, read only when the word is a pattern): the matches with
/// `\` turned into `/`, or the word itself when it is no pattern or matched
/// nothing.
pub open spec fn glob_expansion(pattern: Seq<char>, found: Seq<Seq<char>>) -> Seq<Seq<char>> {
    let ms = if has_glob_meta(pattern) {
        found.map_values(|f: Seq<char>| replace_all(f, seq!['\\'], seq!['/']))
    } else {
        Seq::empty()
    };
    if ms.len() == 0 {
        seq![pattern]
    } else {
        ms
    }
}

/// The word holds a glob metacharacter (`*`, `?` or `[`).
pub fn is_glob_pattern(pattern: &str) -> (r: bool)
    ensures
        r == has_glob_meta(pattern@),
{
    let s = chars_of(pattern);
    let mut i: usize = 0;
    while i < s.len()
        invariant
            i <= s.len(),
            s@ == pattern@,
            forall|k: int| 0 <= k < i ==> !(s@[k] == '*' || s@[k] == '?' || s@[k] == '['),
        decreases s.len() - i,
    {
        if s[i] == '*' || s[i] == '?' || s[i] == '[' {
            return true;
        }
        i = i + 1;
    }
    false
}

/// Expands a glob pattern into the paths it matched. `found` holds the
/// matching paths as the file system listed them.
pub fn expand_glob(pattern: &str, found: Vec<String>) -> (r: Vec<String>)
    ensures
        views(r@) == glob_expansion(pattern@, views(found@)),
{
    let mut matches: Vec<String> = Vec::new();
    let mut sep: Vec<char> = Vec::new();
    sep.push('\\');
    let mut slash: Vec<char> = Vec::new();
    slash.push('/');
    assert(sep@ =~= seq!['\\']);
    assert(slash@ =~= seq!['/']);
    let ghost fs = views(found@);
    let ghost target = fs.map_values(|f: Seq<char>| replace_all(f, seq!['\\'], seq!['/']));
    if is_glob_pattern(pattern) {
        let mut i: usize = 0;
        while i < found.len()
            invariant
                i <= found.len(),
                fs == views(found@),
                sep@ == seq!['\\'],
                slash@ == seq!['/'],
                target == fs.map_values(|f: Seq<char>| replace_all(f, seq!['\\'], seq!['/'])),
                views(matches@) == target.take(i as int),
            decreases found.len() - i,
        {
            let fc = chars_of(found[i].as_str());
            let replaced = replace_all_chars(&fc, &sep, &slash);
            let ghost before = views(matches@);
            matches.push(string_of(&replaced));
            assert(fs[i as int] == found@[i as int]@);
            assert(target[i as int] == replace_all(fs[i as int], seq!['\\'], seq!['/']));
            assert(views(matches@) =~= before.push(replaced@));
            assert(views(matches@) =~= target.take(i + 1));
            i = i + 1;
        }
        assert(target.take(found.len() as int) =~= target);
    }
    if matches.len() == 0 {
        let mut one: Vec<String> = Vec::new();
        one.push(copy_string(pattern));
        assert(views(one@) =~= seq![pattern@]);
        one
    } else {
        matches
    }
}

} // verus!
