# notify_poll

The core of a polling file watcher, verified with Verus.

A polling watcher looks at the watched files again and again, compares what it finds with what it
found before, and tells its user of the difference. Everything about that which can be decided
without touching a file stands in the library under `src/`, with contracts that say exactly what
each function does; the modules whose names end in `_laws` prove what holds of these functions
together. Files, threads, channels and the clock stand around the library, under `app/`.

## Layout

- `src/path.rs`, `src/path_map.rs`: paths as byte strings, read by their components, and maps whose
  keys are paths.
- `src/filter.rs`, `src/error.rs`, `src/event.rs`: directory filters, failures, events and their
  mask.
- `src/paths.rs`: watched paths and their reported form; the barriers that keep filtered watches
  disjoint; filters at walk time and at event time.
- `src/data.rs`, `src/scan.rs`, `src/hash.rs`: what is known of files, what a scan records, what lies
  between two scans, and the hash of contents.
- `src/poll_loop.rs`, `src/poll.rs`, `src/handler.rs`: the loop, the set of watches, and handlers of
  first scans.
- `src/cache.rs`: caches of file IDs.
- `tests/`: the library at work, on a disk that is held in memory.
- `app/`: the watcher for Unix, with files, threads and channels.

## What is trusted

The event mask of `notify-types`, the hasher of `xxhash-rust` and `Arc::clone` are called through
declarations whose contracts are not proved here; each says above it what it claims.
`std::io::Error` and `file_id::FileId` are carried along and never looked into.
