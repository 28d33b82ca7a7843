# pino

A local reverse proxy for the Anthropic API. It rewrites requests so that more of each conversation
is read from the prompt cache, optionally trims them, and keeps a record of what that saved.

- `src/` is the library. Every function in it is verified with Verus against its contract. Calls
  into other crates (regular expressions, decompression, the clock, random numbers, JSON strings)
  stand behind small wrappers whose doc comments say what is taken on trust.
- `tests/` runs the library, with the other crates linked.
- `app/` is the program: sockets, files, SQLite, reading JSON and floating point. It is started under
  three names: `pino-proxy`, `backfill` and `cache-stats`.

Money is counted in whole units of a twentieth of a micro-dollar, which every price is a multiple
of per token, so that no sum is rounded. Dollars appear only where a row is stored or printed.

## Laws

Besides the contract of each function, the library states what holds across functions. These are
the public proof functions whose names begin with `law_`; the larger groups stand in
`src/cache_laws.rs` and `src/transform_laws.rs`.

## Settings

`PORT`, `BIND_HOST`, `AUTO_CACHE`, `TAIL_TTL`, `MODEL_OVERRIDE`, `TRANSFORM`, `DROP_TOOLS`,
`STRIP_ANSI`, `TRIM_BASH_GIT`, `LOG_BODIES`, `LOG_DIR`, `METRICS`, `DASHBOARD`, `DASHBOARD_TOKEN`
and `DB_PATH`. Switches are on when set to `1`. `SSL_CERT_FILE` adds trusted certificates.
