# qedgen (verified core)

The logic behind two parts of `qedgen`, written in Verus with its contracts
proved:

- **Clustering** (`src/cluster.rs`, `src/clustering.rs`, `src/template.rs`):
  lifts per-runtime proto-clauses into interview clusters. Grouping by
  `(kind, handler)`, promotion of a kind to program scope when at least three
  distinct handlers contribute it, sorted and de-duplicated finding ids,
  confidence, the deterministic cluster id and every rendered text are stated
  in the contracts; the laws of the clustering (promotion, placement of every
  finding, unique keys, output order, determinism) are proof functions.
- **Pinocchio adapter** (`src/pinocchio_adapt.rs`): reads the dispatch table,
  handler accounts, instruction data fields and error enum out of a program's
  sources and renders a starter `.qedspec`. The rendered text is returned as
  built: no `.qedspec` parser is part of this crate, so the text is not parsed
  back before it is returned, and a text that the spec parser would refuse is
  still returned as `Ok`.
- **Text** (`src/text.rs`): char-level operations the two parts share, with
  specifications over `Seq<char>`.
- **Outside crates** (`src/outside.rs`): the calls into `sha2`, `regex` and
  `toml`, each behind a trusted item whose contract names what the crate
  computes.

`app/` holds what does not belong in the verified library: reading a program
directory from disk, writing the rendered spec, and the serde shape of the
cluster schema.
