# forkd

forkd forks microVMs the way processes are forked: a parent is booted and
warmed up once, snapshotted to disk, and then restored many times over. A
running child can be branched into a snapshot of its own, suspended and
resumed.

- `src/` is the library, verified with Verus. It decides: which requests a
  daemon admits and what it answers, what Firecracker and the guests' agents
  are told, how chains of diff snapshots are walked, merged and deleted, which
  pages of a guest's memory have been captured, what a command line means.
- `app/` is ordinary Rust around it: the HTTP server, the command line, files,
  processes, sockets and the kernel's userfaultfd. It hands the library what it
  found out and carries out what the library decided.
- `tests/` runs the library from outside.

Some modules to start with:

| module | what it holds |
| --- | --- |
| `daemon`, `state`, `slots` | the daemon's state and what every request keeps of it |
| `branch`, `sandboxes`, `snapshots`, `workspaces` | one request each: admitted or refused, planned, recorded |
| `chain` | snapshots on top of snapshots |
| `fork`, `boot`, `firecracker` | what children are started with and told |
| `merge`, `wp`, `uffd`, `memfd` | guest memory: diffs, captures, regions |
| `auth`, `audit`, `config`, `metrics` | the edge of the daemon |
| `cli`, `client`, `hub`, `doctor`, `workdirs` | the command line |
| `text`, `json`, `paths`, `table`, `tags` | what the others are built from |

Public proof functions named `law_*` state what holds across several
functions.
