# flgit

The version-control logic of FLgit, a Git companion for FL Studio projects,
verified with Verus.

- `src/` is the verified library. It reads Git's output (`status`, `log`,
  remotes, versions), decides which Git commands to run and what their
  combined outcome is, keeps `.gitattributes`, `.gitignore` and the local
  diff-driver attributes in shape, validates what the user enters for a
  project, binds a project folder, writes the Git action log entries, and
  computes the overlay window's integer geometry next to FL Studio.
  Each public function states its result exactly in its `ensures`; the
  laws that relate several calls are public proof functions named `law_*`.
- `tests/` exercises the library on concrete values.
- `app/` is the desktop shell: running processes, files, the configuration
  file, the folder watcher, the Windows window list, floating-point window
  sizes, and the Tauri commands. It hands the library plain values, runs
  the steps of each command in order, and branches only on what a library
  function returned (a failed step's outcome, whether a remote is listed,
  the next step of a sequence).
