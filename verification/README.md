# nixlayer

A focused package-list manager for NixOS. It owns one directory inside a NixOS configuration,
`modules/nixlayer/`, and adds a single import line to `configuration.nix`. Packages are grouped
into categories, one plain Nix file each.

The library under `src/` is written and proved in Verus. It decides how a category file is read
and written, what a command does to which file, what is shown, which program is asked and what its
answer means, and when a rebuild may be launched. It touches neither disk nor network: a command is a function from
what was found to a plan, a list of lines to show and files to write, with what follows.

| Module | Subject |
|---|---|
| `text`, `order` | strings as character sequences, and their order |
| `nixfile` | bracketed blocks, package lists, syntax checks |
| `sources`, `category` | GitHub sources and category files |
| `paths`, `settings`, `state`, `default_nix` | the files of a setup |
| `init`, `rebuild`, `doctor` | setting up, rebuilding, diagnosing |
| `resolver`, `github`, `profile`, `json`, `tools` | the programs of Nix and their answers |
| `commands`, `show`, `suggest`, `sourcing`, `import` | the commands |
| `plan`, `ui`, `error`, `cli` | what commands are made of |
| `roundtrip`, `regenerated`, `edits`, `outcomes` | what holds of the whole |

`app/` is the program around it: arguments, files, processes and prompts. `tests/` runs the
library.
