# byteos_core

The logic of the ByteOS kernel as a verified library: the in-memory file
systems (`ramfs`, `ramfile`, `devfs`, `pipe`, `dentry`, `pathbuf`), the
memory areas of a process and its page faults (`memset`), program loading
and the initial user stack (`elf`, `stack`), futexes, signals, timers,
`poll`/`select`/`epoll`, sockets' address handling, and decisions taken
inside several system calls (`syscall`, `net`, `signal`, `time`). The
functions in `src/` carry contracts that Verus proves, except the few
trusted wrappers around outside crates named below; `src/laws.rs` states the properties that tie operations
together (a read gives back what a write wrote, futex queues are served in
order, unmapping leaves no overlap, and so on).

- `src/` — the library, verified with Verus.
- `tests/` — tests on concrete values, run against the compiled library.
- `app/` — a small hosted program around the library: it builds the root
  file system, lists it, and shows how a program file would be loaded.

The calls into `xmas-elf`, `bit_field` and `hashbrown` sit behind a few
trusted wrappers whose doc comments say what is assumed of them. Before it
calls the ELF reader on a program header or a section, `elf` checks, from
the bytes, exactly the conditions under which that reader can read it in
place (`elflayout`), so that a file the reader would stop on is refused and
every other is loaded as the reader sees it.

Two tables are kept in sorted vectors rather than in std's maps: the futex
queues (keyed by address) and the `/dev` directory (keyed by name). Their
contracts speak of the `Map` each stands for and keep the order of their
keys as an invariant, so that each key appears once. For `/dev`, a
`BTreeMap` keyed by strings is a form whose contents Verus does not follow;
the futex table was written as a vector from the start, without trying a
`BTreeMap` keyed by the address.

The system-call dispatcher, the task loop and the device drivers are not
here: the dispatcher matches on per-architecture call numbers that this
source does not define, and the rest drive hardware and async tasks.
