# lab_core

`lab_core` runs GitLab CI pipelines locally. Given a `.gitlab-ci.yml`, it resolves the
document (merge keys, includes, `!reference` tags, `extends:`), evaluates `rules:` and
`workflow:rules:`, expands `parallel:` jobs, orders the jobs into an execution plan,
and works out what each job runs in its container. It also analyses pipelines for
common mistakes and suggests fixes, and masks secrets in job output.

The library is written in Verus. Every function in `src/` carries a `requires` /
`ensures` contract over mathematical models (`Seq`, `Map`, spec functions and views
of the library's types), and Verus proves each body against its contract. Properties
that span several functions are stated and proved as `law_…` proof functions.

## Layout

- `src/` — the verified library.
  - `parser/` — the YAML model (`yaml.rs`), reading documents from text
    (`document.rs`), includes (`includes.rs`) and building a pipeline (`schema.rs`).
  - `model/` — jobs, rules, variables, pipelines and the predefined CI variables.
  - `planner/dag.rs` — rules and filters, `parallel:` expansion, dependency checks,
    and the plan: jobs run in rounds, each round split by stage in stage order.
  - `runner/` — what a job runs: commands, image, environment, artifacts, outcomes.
  - `secrets.rs` — secret scoping, masking and the secrets file format.
  - `analyze.rs`, `advice.rs` — the pipeline analysis and suggested fixes.
  - `laws.rs` — properties across functions, proved.
  - `collections.rs` — contracts for the `indexmap` maps the model uses.
- `app/` — the command-line program around the library: file and network I/O,
  Docker (through `bollard`), the run loop, terminal output and the MCP server.
- `tests/` — tests of the library on concrete inputs.

Calls into outside crates (`indexmap`, `regex`, `globset`, `base64`, `serde_yaml`)
sit behind small trusted wrappers whose doc comments say what their contracts claim.
