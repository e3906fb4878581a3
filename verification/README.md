# ASTral

An AST-aware code index for JavaScript and TypeScript repositories: it scans a working tree,
analyzes each file into symbols, references, imports, exports and calls, stores them with
full-text chunks in SQLite, keeps the index current as files change, and answers searches
from a command line, an MCP server and a small web API.

## Layout

- `src/` — the library, verified with Verus. It holds the rules and the data: path and text
  handling, tokenizing and ranking signals, which files are scanned and in which order, the
  records and relationship edges a file is stored as, index status, the refresh plan and the
  change batcher, repository names and the registry's decisions, git snapshots, log rotation,
  the MCP and web helpers, and the command-line reports.
- `tests/` — tests of the library.
- `app/` — the program around it: argument parsing, SQLite, the file walk, the oxc analyzer,
  the file watcher, logging, the MCP server and the web server.
