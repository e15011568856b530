# shellcomp

Deployment of shell completion scripts, verified with Verus: where a script goes, how Bash, Zsh,
Fish, PowerShell and Elvish come to load it, how that is detected, and how both are taken back.

- `src/` is the library. It does no input or output: an operation gets the environment of the
  process and the file system as values (`Environment`, `Disk`) and leaves on the file system
  what it changed. Every function states its result over mathematical views.
  - `text`, `path`, `paths`: lines, bytes, paths, default locations and acceptable targets.
  - `disk`, `listing`, `fs`: the file system, and reading, replacing and removing one file.
  - `managed_block`: marked blocks in startup files.
  - `shell`: the blocks and activation of each shell, the reading of shell code, and the search
    for completion loaders.
  - `service`, `api`: the operations, their reports, failures and events.
  - `render`: completion scripts from a `clap` command.
  - `laws`: what holds of the operations together, such as when installing twice changes nothing
    and that edits of a startup file keep every line outside of the block.
- `tests/` runs the library on file systems in memory.
- `app/` applies the operations to the system of the process: it takes a picture of the files
  that an operation may look at, carries the changes out, serialises operations of one process
  on the same files, and tells observers.
