# rtk_ls

A verified library for compact directory listings, and a small program
around it.

- `src/text.rs`: character-level helpers (decimal notation, line and
  whitespace splitting, joining, unsigned parsing) with exact specifications.
- `src/size.rs`: human-readable sizes ("500B", "1.2K", "2.4M"), computed in
  integers with the rounding of `{:.1}` on an `f64`.
- `src/listing.rs`: the compact rendering of `ls -la` output and of a native
  directory scan, with the per-extension summary.
- `src/invocation.rs`: the arguments given to `ls`, what is printed from its
  output, and the verbose size report.
- `src/native.rs`: flag reading, entry filtering and long-format lines of the
  native listing.
- `src/laws.rs`: properties proved over the specifications.
- `app/main.rs`: runs `ls` (or reads the directory on Windows) and prints.
