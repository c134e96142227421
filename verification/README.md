# vmsa_test

The host-side test runner for FVP integration tests of `aarch64-vmsa`, with its
decision logic verified by Verus.

- `src/` is the verified library:
  - `args`: the command line (`doctor`, `test <target|all>`, `clean`, `--crate`, `--filter`, `--keep`);
  - `protocol`: the strict `@@VMSA` result-stream parser and its laws;
  - `catalog_plan`: the typed registry rows and the boots a test run needs;
  - `supervisor`: the decisions of a supervised container run, one step per
    event (a line, a wait, a deadline, the exit of the container);
  - `process`: failures, build-step progress, the bounded line splitter and the
    firmware preparation display;
  - `report`: the summary table, one row per target;
  - `run`: report rows and exit statuses of boots, the artifact rules and the
    content fingerprint;
  - `podman`: what the Podman probes' outputs mean;
  - `terminal`, `text`: colouring and the text functions the rest is built on.
- `app/` is the command-line program around it: processes, threads, files,
  Podman invocations and Ctrl-C handling.
- `tests/` exercise the library on concrete values.

The registry that the runner plans from is read at run time from
`target/harness/src/registry.rs` below the repository root.
