# why

A system and project inspector ("why does `node` resolve here?", "what holds
port 8080?", "is this project's environment compatible?"), written as a
verified library with a thin command-line program around it.

- `src/` is the library, verified with Verus. Every decision the inspector
  makes is here, with its contract: the evidence-graph model of a finding and
  its validation (duplicate ids, dangling references, repeated relationships,
  cycles) and its drawing as a tree; the causal chains built for executables
  and ports; fix plans; ranked reports; PATH search order, PATHEXT candidates
  and Scoop shims; version extraction; installation sources; project
  detection, compose services, Node engine constraints and `.env` checks; the
  parsing of the platform's service, process and port reports.
- `app/` is the program: argument parsing, the file system, the environment,
  running programs and PowerShell, JSON and YAML, and printing. It hands the
  library plain values and prints what comes back.
- `tests/` runs the library on concrete inputs.
