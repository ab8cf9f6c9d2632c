# ratatoskr-nodes

The nodes of a coding pipeline, as a library of decisions: what each stage of a run is given, what it
may use, what its answer comes to, and what the run does next. Every function of `src/` carries a
contract and is proved against it with Verus; what a run promises as a whole (that a child never has
more authority than its parent, that a proving run loses no test, that the order in which files are
listed never changes a fingerprint) stands beside the functions as public proof functions.

- `src/` — the library.
  - planning: `contracts/`, `memory`, `preamble`, `skills`, `clarify`
  - the registry: `stage`, `policy`, `validate`, `workflow`, `routes`, `tools`, `plugins`, `child`
  - the fork: `implementer`, `redteam`, `testrun`, `converge`, `referee`, `review`, `commit`
  - the run: `run`, `issue`, `checkpoint`, `fingerprint`, `control`, `publisher`, `bookkeeper`
  - building blocks: `text`, `names`, `config`, `error`, `json`
- `tests/` — the library from outside, on concrete values.
- `app/` — ordinary Rust around it: the store, the worktrees, the sandboxes, the memory index, the
  dashboard and the model turns are reached from here, and the values that cross a wire get their
  serde copies here.

Functions that would wait on something outside are written as steps: a state, an event, and what is
to be done next (`Attempt`, `Baseline`, `Bookkeeping`, `NodeClarifier`, `DashboardControl`). The code
that drives them performs the action and hands back what came of it.

What is believed without proof is `String::push` in `text` and the calls into `serde_json` in `json`.
