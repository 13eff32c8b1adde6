# raddy

The decision logic of a small reverse-proxy gateway, verified with Verus.

- `src/compress.rs`: the `encode` algorithms and the gzip (`flate2`) and zstd
  (`zstd`) encoders behind trusted wrappers.
- `src/accept.rs`: the `Accept-Encoding` header read into entries, and the
  choice of the first configured algorithm the client accepts.
- `src/upstream.rs`: round-robin counters per (site, terminal), with the
  laws of the round-robin sequence.
- `src/path.rs`, `src/fs.rs`: request-path resolution under a site root and
  the serving steps of the `file_server` directive, with the law that a
  resolved path never leaves the root.
- `src/tls.rs`: the certificate store, the SNI decision, and PEM parsing
  through OpenSSL.
- `src/text.rs`: trim, split and search over sequences.

`app/` holds what Verus does not take: the HTTP session and TLS hooks of the
proxy, file-system calls, locks, the `f32` weight parse of `Accept-Encoding`
and the command line.
