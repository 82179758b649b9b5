# claude_statusline

Renders a one-line, ANSI-coloured terminal status line from a JSON status
payload read on stdin: token usage (`50.0k/200.0k`, coloured by how much is
used), the repository or directory, the git branch, the Python virtual
environment and the model name.

- `src/` is the library, verified with Verus:
  - `format_tokens.rs`: token counts with `k`/`m` suffixes, one decimal place;
  - `rounding.rs`: an exact integer model of the binary64 rounding that the
    one-decimal display goes through;
  - `input.rs`: the decoded payload and the `StatusInput` built from it;
  - `segments.rs`: the coloured segments and the whole line;
  - `util.rs`: path basenames and Unicode whitespace trimming.
- `app/` is the program: it reads stdin, decodes the JSON with serde, runs
  `git`, reads `$VIRTUAL_ENV` and prints the line.
- `tests/` holds the tests of the library.
