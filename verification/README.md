# ironplc

Identifiers, a syntax tree and semantic rules for IEC 61131-3 libraries,
verified with Verus.

- `src/ident.rs`: source locations and case-insensitive identifiers.
- `src/ast.rs`: the syntax tree of a library (data types and POUs).
- `src/fold.rs`: the `Fold` trait, which rebuilds a library node by node.
- `src/diagnostic.rs`: diagnostics reported by the rules.
- `src/graph.rs`: the `petgraph` graph that the recursion rule builds, with
  the contracts of the calls made into it.
- `src/rule_enumeration_values_unique.rs`: enumeration values must be unique.
- `src/rule_pous_no_cycles.rs`: no POU may be recursive, and functions may
  call only functions.
- `src/stages.rs`: the semantic stage, which applies the rules in order, and
  a form of it that declines libraries too large for the graph's indices.
