# armature-rhai

Rhai scripting for Armature HTTP applications: routes map URL patterns to
`.rhai` handler scripts, middleware scripts run before and after handlers,
and not-found and error scripts take over when nothing matches or a script
fails.

- `src/` is the library, verified with Verus: route patterns and matching,
  route discovery from the script directory layout, the request and response
  bindings scripts see, the script cache, the request pipeline (which script
  runs next and what its result becomes), hot-reload debouncing, and the laws
  that hold across them (`src/laws.rs`).
- `app/` runs it: the Rhai engine and the API registered with it, conversions
  to and from `armature_core`'s HTTP types, file access, the file watcher and
  the async runtime.
- `tests/` exercises the library on concrete values.
