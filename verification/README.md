# query_server

A geocoder: it finds the address at a point, the point of an address, and the
names that begin with what was typed.

- `src/` is the library, verified with Verus: file formats, lookups, rankings,
  request rules, the builders of the indexes, and the decisions of the
  downloader. Each module opens with what it is about; its contracts speak of
  sequences, maps and integers.
- `tests/` runs the library on small examples.
- `app/` is the program around it: the HTTP service, the command-line tools,
  files, downloads, and what is computed in floating point.

Floating-point numbers enter the library as bit patterns (`ieee`). The library
lists the records near a point, the program computes the distances, and the
library decides what follows from them.

Calls into other crates stand in small functions marked
`#[verifier::external_body]`. Their doc comments say what is relied on.
