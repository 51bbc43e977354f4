# Amiga Disk Engine: the verified core

The rules of a forensic toolkit for Amiga floppy and hard-disk images, written
in Verus and proved against their contracts: what an image's faults are and
how they are graded, how a raw-track or flux container is reassembled into a
disk, how dumps of one disk are compared and consolidated, what converts to
what and at what cost, which orphaned file headers the disk itself still
backs up, what occupies each block, and how every report reads, in text and
in JSON.

Reading containers and filesystems is not done here: the facts a reader
establishes (a rootblock's checksum, a header's name, a track's decode)
arrive as plain values, and everything decided from them is verified.

## Layout

- `src/` — the library, one module per concern:
  `inspect` (faults, geometry, track tables, the inspection report),
  `health` (findings, the bitmap cross-check, the tree scan, severity),
  `assemble` (raw-track and flux reassembly), `consolidate` (diff and vote),
  `convert` (the conversion matrix), `carve` (orphaned headers and their
  data-block chains), `layout` (the block map), `find` and `scan` (search
  and signature hits), `batch` (corpus runs and their tallies), `unpack`
  (host-safe names, and the order and tally of an unpack), `create` (blank-disk shapes and stamps), `specs`
  (what a disk admits to needing), `cli` (argument reading, exit codes and
  report text), `bridge` (the C interface's codes), `json` (the document
  writer), `json_read` (the reader model and the proof that every document
  written reads back as its value), `order` and `text` (sorting and string building).
- `tests/` — tests of the library on concrete values.
- `app/` — the `ade` command-line front end over the library.
