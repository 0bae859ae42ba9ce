# OxiHTTP

Building blocks of an HTTP client and server, written in Rust and verified with Verus.

The library under `src/` holds the decisions: what a frame, a message, a date, a range or a header
means, what is answered, what is sent and what is tried again. Each function has a contract, and
the laws that span functions are proof functions named `law_*`. What the library takes from other
crates stands behind items whose contracts are not proved; each of them names the function that it
stands for.

- `ws_frame`, `ws`: WebSocket frames, messages and the handshake (RFC 6455)
- `static_files`, `http_date`: static files with entity tags, dates and ranges
- `middleware`: CORS, limits on bodies, rates and times
- `multipart`: `multipart/form-data` bodies (RFC 7578)
- `client`, `exchange`, `uri`: requests, responses, retries and redirects
- `tls`, `transport`: what connections are set up with
- `error`, `http_types`, `headers`, `octets`, `encoding`, `text`: what the others are made of

The crate under `app/` surrounds the library with sockets, files and clocks. The tests are under
`tests/`.
