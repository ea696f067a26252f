# rust_proxy

An HTTP proxy whose decisions are verified with Verus. One listening port serves HTTP clients and
recognises SOCKS5 clients by their first byte.

- `src/` is the verified library. It owns no streams: a function that needs the outside world
  returns what is to be done next, and is called again with what came of it.
  - `net::conn` is a read buffer in front of a stream: lines, exact numbers of bytes, putting
    bytes back.
  - `common::auth` holds accounts and checks passwords; `common::config` holds the settings and
    says which can be used.
  - `proxy::request` reads requests and writes them for their targets; `proxy::http` says how a
    request is met; `proxy::tcp` says who is let in and which protocol a client speaks.
    `proxy::fidelity` proves that a target reads the request that was read from the client.
  - `text` is the handling of text that the others rest on.
- `tests/` runs the library on concrete values.
- `app/` is the program: command line, settings file, sockets and TLS.

What callers may rely on across several calls is stated by the proof functions whose names begin
with `law_`.
