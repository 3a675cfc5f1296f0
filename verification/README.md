# pwa_container

The logic of a PWA container host, verified with Verus: how requests of
installed web apps are proxied (headers, cookies, bodies, replies), how the
custom protocols map their addresses to sites and files, the per-app cookie
store and persistent cache, the SQL of the record store, app installation
from a page and its manifest, and the storage bookkeeping.

- `src/` is the verified library. Each module states its functions'
  results over spec functions; the laws that span several functions are
  public proof functions (`lemma_…`). Calls into `base64`, `url`, `regex`,
  `flate2`, `mime_guess`, `urlencoding`, `http` and `rusqlite` go through
  small trusted wrappers whose contracts say what the crates promise.
- `tests/` runs the library on concrete values.
- `app/` is the host program around it: the database, the local HTTP server
  and the commands, doing the file, network and database work.
