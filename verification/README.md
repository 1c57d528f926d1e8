# rofd

A verified library for OFD packages (the Chinese fixed-layout document format)
and for the SM2 electronic seals that sign them, written in Verus.

- `src/` — the library; every function carries a contract that Verus proves.
  - `container`, `ofd_utils`, `stamps`: the package as a zip archive, its
    documents, pages, templates, resources, signatures and annotations.
  - `xml`, `dom` and the element modules (`ofd_file`, `document`, `page`,
    `res`, `graphic`, `signature`, `annotation`, …): reading the XML model.
  - `value`: the textual values of the format (`ST_Array`, `ST_Box`, …),
    with their round trips.
  - `render`: the drawing decisions (path commands, colours, draw parameter
    stacks, glyph runs), independent of any canvas.
  - `der`, `encode`, `asn1`, `v1`, `v4`, `seal`, `sign`, `gm`: reading and
    writing the DER structures of seals and signatures, and assembling a
    signed seal.
  - `duration`: periods written as `1y10d`.
- `tests/` — tests run against the compiled library.
- `app/` — the command line program: file access, key generation, printing.
