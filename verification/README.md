# centrale

The decision logic of an authenticating reverse proxy for subdomains, written
in Verus, with its contracts proved.

- `src/` is the verified library:
  - `text` — the character-level model (search, split, join, trim) and its lemmas;
  - `host` — host names from `Host` and `Referer` values, public suffixes, subdomains of a host name (also as the admin service finds them, given its address test);
  - `subdomain`, `proxy` — the subdomain a request is for, the header that names the host, the credential that identifies the user, front-end detection and the request forwarded upstream;
  - `path` — mapping a request path under the front-end folder, refusing traversal;
  - `server` — the CORS origin rule;
  - `token` — session cookies and bearer tokens (hex, SHA-256), which stored cookie is still current, and the issue-then-validate round trip of a cookie;
  - `password` — Argon2 password hashing with fresh salts;
  - `auth` — the authenticated user, the role that admits a user to a subdomain, who may administer a subdomain and what a rename is answered;
  - `config`, `records`, `error` — settings, API records, errors;
  - `web` — the calls into the HTTP and URL crates.
- `tests/` runs the library on concrete values.
- `app/` is the actix-web server around it: database, HTTP handlers, middleware, TLS.
