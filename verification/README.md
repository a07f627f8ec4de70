# release-monitor

A service that watches GitHub repositories for new releases and runs a
configured shell command when the latest release tag of a repository changes.

Layout:

- `src/` is the verified library (Verus):
  - `common.rs`: configuration entries, stored rows, the configuration, releases;
  - `database.rs`: the plan that synchronises the stored rows with the
    configuration, and the laws that it satisfies;
  - `monitor.rs`: the polling loop as a state machine (`Monitor::step`), with
    its laws;
  - `status.rs`: the reader of `systemctl show` output;
  - `commands.rs`: the configuration edits of `add` and `remove`;
  - `executor.rs`: the command run on a new release.
- `app/` is the program around it: command line (clap), YAML files
  (serde_yaml), SQLite (rusqlite), HTTP (reqwest), processes, printing, and the
  loop that performs the monitor's actions.
- `tests/` runs the library on concrete values.
