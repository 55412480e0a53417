# axum_folder_router

The verified core of a folder-based router generator for Axum: given the
`route.rs` files found under a route directory, it computes the routes
(`[id]` becomes `{id}`, `[...rest]` becomes `{*rest}`), the module path of
each file, the HTTP methods each file handles (`pub async fn` named after a
method), the order of registration, the generated router source text and
the errors to report.

- `src/` — the library, verified with Verus: `ident` (identifier
  validity), `generate` (paths, module
  names, generated text), `parse` (arguments, methods, route files,
  manifest directory), `order` (path order), and `folder_router_expansion`
  in `lib.rs`.
- `app/` — the attribute's driver: parses the macro input with syn, walks
  the directory, reads the files and turns the generated text into tokens.
- `tests/` — tests of the library on concrete inputs.
