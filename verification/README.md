# acil

A command-line client for Jira and Confluence with named profiles, whose core is
verified with Verus.

- `src/` is the verified library: markdown to Confluence storage format and to Jira's
  document format, page files with a YAML front matter, profiles, the listings (tables,
  trees) and their alignment, the request bodies and paths of every command, and the
  decisions of the interactive shell. Each function carries a contract; the `law_*`
  proof functions state properties that span several functions.
- `app/` is the program around it: the command line, HTTP requests, files, the terminal
  and the line editor.
- `tests/` runs the library on concrete inputs.
