# ojo

A transport protocol event tracer. Instrumented programs record fixed-size event
records into per-CPU pages; a flusher cuts them into binary batch files; a watcher
ingests the files into DuckDB and a web explorer answers live queries over them.

## Layout

- `src/` is the library, verified with Verus:
  - `trace_file`: the binary format (24-byte header, 40-byte records, integers in the
    byte order of the writing machine),
    encoding and decoding, with the round trip proved.
  - `collector`: the per-CPU event collector with its fallback queue and page pool;
    every operation is specified over an abstract `CollectorState`, and conservation
    and ordering of events are proved.
  - `client`: the tracer builder, recording with a bounded buffer (drops are
    counted), and cutting batch files.
  - `schema`, `names`, `text`, `cpus`: schema merging and hashing, the JSON schema
    document, file names, number formatting and parsing, the kernel's CPU list.
  - `loader`, `ingest`, `query`, `subscriptions`: what the watcher and the explorer
    decide: columns of a file, which files to take, when to snapshot, the SQL of a
    query, and which results to send again.
- `app/` is the program around it: the command line, file system and database work,
  threads, the web server.
- `tests/` runs the library on concrete inputs.
