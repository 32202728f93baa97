# tipiak

A self-hosted search engine for local files, as a verified library and a
command line client.

- `src/` is the library. It reads ZIM archives (header, MIME types, directory
  entries, clusters, an LRU cluster cache, metadata with redirects), splits
  text into search tokens, decodes embedded media metadata (EXIF, IPTC, ID3,
  XMP), and makes the decisions of crawling and searching (which files to
  record under which type, the SQL of the queries, the filters of the web
  client). Its own functions carry contracts that Verus proves. The few
  calls into std and into the outside crates (zstd, regex, stop-words,
  quick-xml, dyn-fmt) go through small wrappers whose contracts are
  assumed, not proved; each one's doc comment says what it claims.
- `app/` is the command line client (`crawl`, `search`, `watch`): it walks
  directories, reads files and talks to the SQLite database, and hands what
  it read to the library.
- `tests/` holds the tests of the library.
