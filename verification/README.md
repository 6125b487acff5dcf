# mpeg2ts

Elements of MPEG-2 transport streams (ISO/IEC 13818-1), verified with Verus.

- `src/time.rs`: timestamps (PTS, DTS) and clock references (PCR, OPCR, ESCR), and how they are
  written in bytes. `src/time/laws.rs` proves that what is written is read back.
- `src/pes/packet.rs`: PES headers. `src/pes/laws.rs` proves that a header that is written is read
  back, and that a reader of a stream fetches the bytes of the header and no others.
- `src/ts/`: transport packets, their reader, and the continuity counter checker.
  `src/ts/laws.rs` proves what the checker accepts and reports.
- `src/es.rs`, `src/bytes.rs`, `src/text.rs`, `src/error.rs`: stream identifiers, big-endian
  integers, numerals and errors, which the others rest on.
- `app/`: the same elements on `std::io` streams.
- `tests/`: tests on concrete values.

The contracts speak of mathematical models: a timestamp is its value, an encoding is a sequence of
bytes, an error is its kind and the characters of its reason, and a checker is a map from PIDs to
the last counters seen.
