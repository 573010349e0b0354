# allay

The verified core of Allay, a configurable blog engine: its template
language (grammar, parser and interpreter), its data model, the dependency
graph, the bookkeeping of incremental compiling, URL and path rules, and
the configuration values. Verus checks every function in `src/`; the public
ones carry contracts that state what they compute, and the laws of the
library stand as proof functions. Three small functions call out to
pulldown-cmark and to std's string collection; their contracts are
trusted.

Layout:

- `src/` — the library, verified with Verus.
  - `grammar.rs`, `parser.rs`, `ast.rs`: the template language and its parser.
  - `semantics.rs`, `interpreter.rs`, `scope.rs`: what templates mean, and
    the interpreter that follows that meaning.
  - `data.rs`, `compare.rs`: values of the template language.
  - `dependency.rs`: the dependency graph with its laws.
  - `env.rs`, `compiler.rs`, `keyed.rs`, `cache.rs`: pages, incremental
    compiling and caches.
  - `extract.rs`, `markdown.rs`, `url.rs`, `path.rs`, `template.rs`,
    `prefix.rs`, `file.rs`, `sitemap.rs`, `vars.rs`, `plugin.rs`,
    `config.rs`: front matter, markdown, URLs, paths, site files and
    configuration.
- `tests/` — tests of the library.
- `app/` — the `allay` command: command line, file system, configuration
  files, and the loop that reads the pages the compiler asks for.
