# rpl

The decision logic of the `rpl` Rust pattern linter, verified with Verus.

`rpl` matches user-written patterns against the MIR of a crate and reports
each match with a diagnostic that the pattern file describes. This crate holds
the parts of that work that do not need the compiler's own data structures,
stated over plain values and proved against their contracts:

- `locals`: null and product facts about the locals of a MIR body, with the
  product relation closed through every local (`product_closure` proves that
  the closure relates exactly the locals joined by a chain of direct facts).
- `diag`, `diag_parse`, `diag_builder`: reading the diagnostic block of a
  pattern into a builder, building the diagnostic of a match, and the order in
  which a diagnostic is reported.
- `matched_map`: how the meta variables and labels of a pattern map to those of
  a pattern it refers to.
- `graph`: the control-flow edges of pattern bodies, with switch values
  normalized to the bit patterns that MIR switches compare.
- `translate`: whether a MIR statement was lowered from a call of a given
  function.
- `meta`: collecting pattern files by path.
- `driver`, `lang_item`: the tool registration, the negative matches of a
  pattern operation, and the names of the language items.

`app/` is the compiler-facing side: it reads MIR and HIR into these values and
turns the answers back into compiler diagnostics. It needs the compiler's
private crates and the other `rpl` crates, so it only builds inside the
compiler's toolchain.
