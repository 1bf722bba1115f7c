# Archive.org Redump Link Updater

A small desktop app that rewrites `redump.org` to `redump.info` in the
descriptions of your own archive.org uploads: sign in, scan your items,
review what will change, and apply.

The logic is a Verus-verified library under `src/`:

- `replace` — the rewrite. The domain is found with the `regex` crate, and
  which text it matches is stated exactly: `redump.org` in any ASCII case,
  followed by the end of the text or a non-word character. Each match that
  starts a domain label becomes `name.info` (or `name.INFO` when the old
  top-level domain was upper case), and everything else is copied. Rewriting
  twice changes nothing more.
- `preview` — the before/after windows shown for each item, centred on the
  first change.
- `json`, `ia` — archive.org's replies as plain values, and what they mean:
  credentials or a message, scrape pages, metadata checks, the write patch.
- `session`, `apply` — the state of a session (sign in, scan, rows, log,
  clearing finished rows) and the decision of what to write for one item.
- `text` — decimal numerals and trimming.

`app/` holds the window (eframe) and the HTTP requests (reqwest). It hands
the raw reply bodies to the library, which parses them with `serde_json` and
decides what they mean; the text of the write patch is produced by the
library too. `tests/` holds the tests.
