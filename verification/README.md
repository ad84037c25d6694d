# ez_stack

The core of `ez`, a command-line tool for stacked branches and pull requests,
written in Verus with its behaviour stated as contracts and proved.

## Layout

- `src/` — the verified library.
  - `stack.rs` — the stack model (`StackState`, `BranchMeta`): adding and
    removing branches, walks to the trunk and to the top of a stack,
    children in dictionary order, and a topological order of the branches.
  - `names.rs` — `NameMap`, a map from branch names to values whose keys
    never repeat, viewed as a `Map`.
  - `cmd/` — the decisions each subcommand takes (commit, amend, restack,
    delete, checkout, list, log, status, pr-edit, init, branch, skill), as
    functions from plain values to plain values, down to the lines that
    `list`, `log` and `status` print.
  - `github.rs` — the arguments handed to `gh`, and the reading of its JSON
    replies into `PrInfo` values and CI states.
  - `json.rs` — a plain JSON value type and the one call into `serde_json`.
  - `dev.rs` — the dev-server port of a branch and the reading of `lsof`
    output.
  - `ui.rs` — the terminal text: faint and bold styles, pull request
    badges, tree drawing, and the info, hint and warning prefixes.
  - `hooks.rs`, `text.rs`, `order.rs` — hook file names, string helpers, and
    dictionary order on strings.
  - `laws.rs` — properties that span several functions: parents come first
    in the topological order, the walk up ends at the trunk, the top of a
    stack has no children and the walk up from it passes the branch, deleting
    a branch leaves nothing stacked on it, the log tree is complete for an
    acyclic stack, and a second restack moves nothing.
- `tests/` — tests on concrete values.
- `app/` — the command-line program: argument handling, calls to `git` and
  `gh`, reading and writing the stack file, and terminal output.
