# minihttp

The logic of two small HTTP servers, as a library whose functions carry
contracts that are proved:

- `src/text.rs`: splitting, comparing and suffix tests on texts and bytes,
  decimal rendering and `u64` parsing.
- `src/url_pattern.rs`: URL patterns such as `/products/<id:num>` and the
  test of a request path against them.
- `src/string_map.rs`: the ordered text map used for headers and queries.
- `src/http.rs`: methods, versions, responses and the bytes they are sent as.
- `src/request.rs`: reading a request from the bytes received.
- `src/websocket.rs`: the WebSocket opening handshake.
- `src/routing.rs`: what each server does with a request.

`app/` runs the servers (hyper for the shop on port 7000, tokio sockets for
the WebSocket server on port 8000) and does the file and network I/O.
