# tusks

Command-line structure described by Rust modules, and the grouped task
overview of its tasks mode. The library under `src/` is verified with Verus;
`app/` holds what sits around it.

## Layout

- `src/task_list/`: tasks collected from a command tree, their order by path,
  sorted collections, and the grouping of the overview (`grouping_laws.rs`,
  `grouping_order.rs` and `grouping_levels.rs` state and prove what the
  grouping keeps, and on which tasks it can run; `grouping_names.rs`, what
  the names of subgroups say of their tasks and of their order).
- `src/list/`: the overview's groups, their conversion from a task list, and
  the layout of its lines (`list_laws.rs`: every visible task is listed once;
  descriptions line up).
- `src/parsing/`: the `#[tusks(...)]` attribute's tokens and grammar, and the rules for
  command functions and `Parameters` structs, read from plain models of Rust
  items.
- `src/codegen/`: module paths and the plan of the generated
  `handle_matches` dispatch (`dispatch_laws.rs`: one arm per command and
  submodule, one way to handle a missing command).
- `src/sample_commands.rs`: what the sample programs' commands decide.
- `app/`: clap commands and syn items read into the models, plans written
  out as tokens, the overview printed, and the sample programs' commands.

The trusted items are few and marked `#[verifier::external_body]`: building a
`String` from characters and a character from its code (std), the Unicode
identifier classes XID_Start and XID_Continue (unicode-ident), the display
width of a string (unicode-width), and the terminal colour codes (owo-colors).

## Design notes

- The subgroups of a task group are kept as a vector of name and group pairs
  (`SubgroupMap`), in insertion order, rather than in an `indexmap::IndexMap`:
  Verus refused `IndexMap` as a field type of the recursive `TaskGroup`, and
  holding it in an opaque struct left the termination of the group's `shape`
  unprovable.  The grouping laws prove that no name occurs twice.
