# bash_attribution

Attribution of file changes to shell tool calls of coding agents. Before a shell tool runs, the file
metadata of the working tree is recorded; after it ran, a second record is compared with the first.
What differs is what the tool changed.

- `src/` is the verified library. It holds every decision and computation, on plain values, with
  contracts proved by Verus; it does no input or output. A hook is a sequence of steps
  (`hook::HookStep`): each step says what is to be done outside, and its answer leads to the next.
- `app/` performs the steps: it runs git, walks and reads the tree, stores snapshots as JSON, and runs
  the actor that keeps the watermarks of a family of worktrees.
- `tests/` runs the library on concrete trees and values.

Ignore rules are matched by the `ignore` crate, and the daemon's replies are read with `serde_json`.
What the library takes on trust from these crates and from the standard library is stated above each
such function, in `text.rs`, `path.rs`, `ignore_rules.rs` and `watermark.rs`.

Paths are texts that compare component by component. Which system they belong to, and so how they are
parted and whether their case counts, is an argument (`path::PathSystem`). Places outside the tree,
such as the cache directory, are lists of parts, which the system joins by its own rules. File names
that are not valid UTF-8 are decoded with replacement characters; where case counts, a snapshot that
holds such a name is not stored.
