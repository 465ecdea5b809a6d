# firepit

A task and service runner: tasks are read from `firepit.yml`, ordered by their dependencies
and run with their output prefixed by their label; services stay up, each checked for
readiness by a log line or a command.

The library under `src/` is written in Verus: each function carries a contract, and Verus
proves that the code meets it.

- `config`, `project_config`, `yaml`, `env`, `path`, `ordered`, `sorted`, `variants`,
  `template`: the configuration as written, includes merged under the including file,
  `defaults` applied, task variants, environment layers, paths, the cache of dynamic
  variables and the `quote` filter.
- `workspace`, `unset_vars`, `summary`, `cli`: the projects of a workspace, the tasks a run
  names, finalizers, the checks of references and variables, and the task list.
- `project`, `graph`, `visitor`, `runner`, `probe`: tasks as they run, their dependency graph,
  the decisions of the visit of the graph, restarts and readiness probes.
- `command`, `tui_state`, `keys`, `input`, `search`, `term`, `hyperlink`, `link_writer`,
  `footer`, `layout`, `size`, `ring`, `output`, `log`, `text`: the state and arithmetic of the
  terminal interfaces.

`app/` holds the program: the command line, reading the configuration files, and a console
runner that runs the tasks one at a time, each through its node visitor, cuts their output
into lines and starts the processes. `tests/` holds the tests of the library.
