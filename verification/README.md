# warden_core

The core of Warden, an API gateway, written in Verus: the rules that decide
where a request goes and whether it may go there, with proofs that the code
follows them.

- `src/route.rs`: routes (`/`-separated parts, `*` as a wildcard), request
  paths (made of valid URI path components only), `Route::matches`, and `Routes`, a tree that maps routes to handlers
  and looks request paths up. The laws of lookup (soundness with respect to
  `Route::matches`, exact routes first, read after write) are proved here.
- `src/services.rs`: the request pipeline (authorization, then routing).
- `src/auth.rs`, `src/jwt.rs`: permission decisions and EdDSA token checks.
- `src/config.rs`: the configuration model, handler kinds, size limits and
  `!env NAME` secrets.
- `src/source.rs`: the upstream path a forwarded request is sent to.
- `src/meter.rs`, `src/provider.rs`, `src/router.rs`, `src/tui.rs`,
  `src/utils.rs`, `src/text.rs`: smaller rules and text helpers.
- `app/`: the server around the library: configuration files, TLS,
  connections, upstream clients, responses and the terminal interface.
