# route_rs

A small web framework whose logic is verified with Verus:

- `src/route_router`: two path routers (a tree of path parts with `{name}`
  variables, and a list of segment patterns with a lookup cache) and a radix
  node over path characters.
- `src/route_http`: methods, status codes, reading a request head and writing
  a response.
- `src/route_core`: turning handler results into responses, redirects, and
  checks on request bodies.
- `src/route_html`: html nodes, pages, links and head elements, and generated
  css classes that are collected, each once, into the page's style sheet.
- `src/route_server`: the server's decisions: head lines, the `date` header,
  and the text that goes on the wire.

`app/` holds what runs around it: the tokio server loop, the thread pool,
streamed bodies, and serde-based json and form bodies.
