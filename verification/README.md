# profiler

A sampling profiler for Rust programs whose output is the Gecko profile format
of the Firefox profiler.

- `src/` is the verified library:
  - `time`: instants and durations as counts of nanoseconds, and a clock whose
    readings never go back;
  - `time_expiring_buffer`: a FIFO buffer whose entries expire after a lifetime;
    entries stamped by its clock come in order of time, so removal drops
    exactly the expired ones;
  - `sampler`, `stack_table`: native stacks, samples, and the stack table that
    deduplicates their paths, one entry per distinct path from the root;
  - `stack_walk`: the walk along the frame pointers of a suspended thread;
  - `string_table`, `markers`: interned strings and the markers table;
  - `buffer_thread`, `sampler_thread`: the decisions of the two profiler threads,
    and the profile with one entry per registered thread;
  - `signal_safe_linked_list`, `startup`.
- `app/` holds the threads and channels, the platform samplers (system calls and
  raw memory reads), the IPC startup, and the rendering of the profile as JSON.
- `tests/` exercises the library.
