# kompanion

Kindle companion tools: a catalog extractor for EPUB, CBZ and FB2 books and
for shell scripts, and launchers that open library files in KOReader.

- `src/` is the verified library (Verus). It holds the parsing and decision
  logic with its contracts: script headers and commands, catalog change
  requests and their JSON documents, the indexers (metadata, natural page
  order, cover choice), the install SQL, the launcher's state machine and
  bus replies, and the posting and retry rules of the catalog endpoint.
  Calls into `sha1`, `hex`, `base64`, `serde_json`, `url`, `fb2`/`quick-xml`
  and `epub-stream` sit behind small trusted wrappers.
- `app/` is the unverified shell around it: files, zip archives, HTTP, the
  property bus and scanner libraries, the C entry points, the launcher's
  main loop, and the mapping of the library's JSON documents to
  `serde_json` values.
- `tests/` runs the library on concrete inputs.
