# nzb-postproc

Post-processing of finished Usenet downloads: PAR2 verification and repair,
PAR2-guided renaming, RAR/7z/TAR/ZIP extraction and cleanup.

- `src/` is the library. It makes the decisions of the pipeline and states, in
  contracts that Verus proves, what each of them is. It does no I/O: a stage is a state machine
  whose methods take what came of the last piece of work and say which comes next.
  Functions whose names begin with `law_` state what holds of whole stages and of
  several functions together.
- `tests/` runs the library on concrete jobs, archives and directories.
- `app/` is ordinary Rust around the library: it reads and writes files, runs the
  extractors, waits for workers and counts.

Paths are held as the sequence of their components (`path::FilePath`), durations as
nanoseconds, PAR2 hashes as integers. Finding PAR2 files, archives and leftovers in
a directory is left to an implementation of `Detector` in `app/`.
