# hoist

`hoist` is a Linux wrapper that applies temporary system tuning (a `tuned`
profile, an AMDGPU performance level, process priorities, hooks) to one launched
command and restores the previous state when that command exits.

The decisions of the program live in a library verified with Verus, down to
what a run does after each of its stages and how it answers each failure; the
program around it does the I/O and feeds what happened back to the library.

## Layout

- `src/` — the verified library.
  - `config.rs`: the configuration model, profile map (kept sorted by name),
    validation with exact error reporting, and config file selection.
  - `runtime.rs`: what a run does: its stages and the answer to each event,
    the start plan and how each outcome updates the recorded state, the
    restore plan, launch preparation (inline and `--env` assignments), exit
    codes, polling, and group membership.
  - `system.rs`: `tuned-adm` output parsing, commands with time limits and the
    wording of their failures, and the sysfs GPU level file.
  - `helper.rs`: the privileged GPU helper's decision.
  - `procutil.rs`: sets of process ids (on `BTreeSet`), `/proc/<pid>/stat`
    parsing, and the descendant closure of a process.
  - `state.rs`: the runtime state record, its file names and directory.
  - `cli.rs`: the reports printed by the subcommands.
  - `text.rs`: character-level helpers shared by the above.
- `tests/` — tests of the library on concrete values.
- `app/` — the executable: argument parsing, reading and writing files,
  running processes, signals, and the loops that feed events back to the
  library.
