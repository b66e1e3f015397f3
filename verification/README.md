# Verified system-call core of a teaching kernel

`src/` is the verified library:

- `banker.rs`: the banker's safety check (`is_safe`), proved to answer exactly
  whether a safe sequence of the existing threads exists, and `ensure_matrix`.
- `table.rs`: the bookkeeping for one kind of resource (free, held, awaited).
- `sync.rs`: per-process mutexes, semaphores and condition variables, slot
  allocation, and the two halves of lock / down around the blocking step.
- `memory.rs`: argument checks of `mmap`, `munmap` and the reply of `sbrk`.
- `time.rs`: the time handed to user space and sleep deadlines.
- `trace.rs`: what a `trace` call does for a given page-table entry.

`app/` is the kernel-side glue: it fetches the current process and task,
calls the library, and performs locking, blocking and memory access.
