# mindav

A WebDAV front end for S3-compatible object stores (MinIO, rustfs, ...).
Each authenticated user sees their own directory of one shared bucket.

## Layout

- `src/` — the library, verified with Verus:
  - `text.rs`: string operations (trimming, suffix tests, first-occurrence
    replacement, hex encoding) with exact specifications;
  - `minio/keys.rs`: how WebDAV paths become object keys and which keys a
    listing hides;
  - `minio/fileinfo.rs`, `minio/dir.rs`: metadata and directory entries;
  - `minio/file.rs`: an open file's read cursor and write buffer, and what a
    flush sends to the store;
  - `minio/listing.rs`: paged listings as state machines;
  - `minio/ops.rs`: the decisions of the filesystem operations between their
    requests to the store;
  - `davurl.rs`: the canonical URL form of WebDAV paths;
  - `userfs.rs`: scoping paths to a user's directory, and why users stay apart;
  - `config.rs`: configuration defaults and the account table;
  - `bindings.rs`: the trusted declarations of the outside items called.
- `app/` — the server: configuration file, HTTP routing, and the requests to
  the object store, driving the library's state machines.
- `tests/` — tests of the library.
