# wirefilter `regex_replace`

The `regex_replace(source, pattern, replacement)` function of a filter
engine, written in Verus.

- `src/template.rs`: replacement templates (`${1}`..`${8}`, `$$`), their
  expansion as a spec function, the verified expander, and laws about it.
- `src/regex_engine.rs`: the trusted calls into the `regex` crate.
- `src/regex_replace.rs`: the function itself, its argument and parameter
  checks, and laws about the replacement.
- `app/lib.rs`: entry points that panic on malformed calls.
