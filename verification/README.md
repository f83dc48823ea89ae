# param_sfo

Reads, builds and writes PARAM.SFO files, the sorted key/value tables that describe games and
applications on PlayStation consoles. The library is written in Verus: every function in
`src/` is proved to meet its contract.

- `src/codec.rs` states the format: `encode` is the file of a PARAM.SFO, `decode` is what a
  file holds. `ParamSFO::to_bytes` and `ParamSFO::from_bytes` are proved against the two.
  What a file cannot point to, because a number does not fit in its field, is not written.
- `src/read_back.rs` proves that what is written is read back; `src/laws.rs` holds the other
  properties of the library as a whole.
- `src/entries.rs` is the map from keys to data, kept in the order of its keys, and
  `src/listing.rs` its mathematical model.
- `src/text.rs` holds what is believed of the standard library: upper case and UTF-8.
- `app/` reads and writes streams and files, and has the `param_sfo!` macro.
