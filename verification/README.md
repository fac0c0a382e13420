# file_transfer

A small TCP file-transfer tool (a server that keeps files under `./arquivos`,
an interactive client, and a load benchmark) whose protocol logic is verified
with Verus.

- `src/` is the verified library:
  - `commands`: the command bytes of the protocol;
  - `wire`: length-prefixed frames (eight little-endian length bytes, then
    the payload) and their round-trip laws;
  - `text`: whitespace, words, lines, trimming, decimal numerals;
  - `client`: reading typed commands, request bytes, receiving a download;
  - `server`: replies, storage paths, request names, listings, uploads and
    the per-connection command loop;
  - `bench`: benchmark file names, payloads and totals.
- `app/` holds the programs: `app server`, `app bench`, or `app` for the
  client. They do the network and file I/O and hand plain values to the
  library.
- `tests/` runs the library on concrete values and against std's own
  string functions.
