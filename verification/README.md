# sparqld

`sparqld` serves a directory of linked data files (Turtle, TriG, N-Triples,
N-Quads, N3, RDF/XML, JSON-LD, YAML-LD and Markdown-LD front matter) as a
live, read-only SPARQL endpoint. Each source file becomes a named graph
`sparqld:<relative path>`; named graphs a source declares are scoped below
it as `sparqld:<relative path>#<name>`; the graph `sparqld:` catalogs the
files, folders and load errors. The directory is watched and changed
sources are reloaded.

## Layout

- `src/` is the library, verified with Verus: paths and IRIs, source
  formats and patterns, Markdown front matter, local JSON-LD contexts,
  scoping of quads, the catalog, the bookkeeping of loading and reloading,
  the watcher's decisions, the report lines, and how HTTP requests are
  answered; parsing RDF sources, the served `oxigraph` dataset (its
  quads, triple counts, and the one-step replacement of reloaded graphs)
  and query evaluation, through `oxigraph` behind stated contracts.
  `src/laws.rs` states properties of the library as a whole.
- `tests/` exercises the library on concrete values.
- `app/` is the `sparqld` program: command line, file system, JSON-LD
  parsing (whose context loader reads files), the HTTP server and the file
  watcher's loop.
