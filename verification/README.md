# nyansync

The receiving side of a small image-cache synchronisation tool, written in
Verus.

- `src/` is the verified library: file metadata and its two encodings (the
  29-byte wire form and the cached file name), the request decoder and the
  framing of directory listings of the wire protocol, the cache layout, and
  the receiver's decisions.
- `app/` is the program around it: command line, TCP server, file system.
- `tests/` runs the library on concrete values.
