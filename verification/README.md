# shell_core

A small interactive shell whose logic is verified with Verus.

- `src/` is the verified library: splitting and quoting of command lines (`tokenizer`),
  reading a command with its output redirections (`cmd_parser`), the builtins and what they
  leave for the caller to do (`builtin_cmd`, and the older argument conventions in `builtin`),
  the command history with its listing and file format (`history`), the line editor's key
  handling and tab completion (`userinput`), search-path lookup (`external_cmd`, `misc`),
  output line endings (`output`) and the character-level helpers they share (`text`).
- `app/` is the program around it: the terminal in raw mode, environment variables, files,
  the working directory and running external programs.
- `tests/` exercises the library on concrete inputs, including comparisons with the standard
  library's own parsing, trimming and splitting.
