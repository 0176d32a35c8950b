# axum_oas

OpenAPI 3.1 documents for axum routers, with the document side verified in
Verus.

- `src/` is the verified library: the document model (`spec`), a string-keyed
  map that keeps its keys sorted (`keyed_map`, with the key order in `text`),
  a JSON value model (`json`), what handler inputs and typed responses
  document (`operation`, `response`), route-template parsing
  (`path_template`), the accumulation of routes into a document (`builder`)
  and the document's JSON form (`serialize`).
- `app/` is the axum side: the describability traits and their impls for
  axum's extractors (schemas come from schemars), the typed responses as axum
  sends them, the capture of a handler's types at route registration, and the
  router that serves `/openapi.json`.
- `tests/` exercises the library.
