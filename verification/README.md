# oxide

A small interactive shell whose language front end and command logic are a
verified Verus library.

- `src/` — the library, checked by Verus:
  - `text` — character-level string operations and their specifications
    (trimming, searching, replacing, splitting into lines and words);
  - `token`, `lexer` — tokens and the lexer, specified by a spec function
    over the input's characters;
  - `ast`, `parser` — the syntax tree and a recursive-descent parser,
    specified by a grammar written as spec functions;
  - `heredoc`, `compat`, `expand` — here-documents, bash/POSIX rewriting,
    `$VAR`/`~`/glob expansion;
  - `executor` — the decisions of the execution engine (mode rewriting,
    aliases, subshells, `&&`/`||` gates, built-in routing, `if` branches,
    background jobs, what the read loops do with a line);
  - `builtins` — what each built-in decides from its arguments;
  - `strmap`, `jobs`, `table`, `perf` — the shell's tables and caches.
- `app/` — the program: the prompt and script loops, process spawning,
  files, the environment, and JSON/CSV data values.
- `tests/` — tests of the library.
