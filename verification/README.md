# emvod

A scheduler for video streams over a multipath connection, verified with Verus.

- `src/videogop.rs` and `src/gop_file.rs`: the table of the groups of pictures
  (GOPs) of a video, and its text form.
- `src/multipath_scheduler/`: the scheduler. `scheduler_emvod.rs` keeps the main
  and the backup path, `round.rs` holds one round of path selection, and
  `transfer.rs` moves parts of a stream into the buffer of a path.
- `src/path.rs`, `src/space.rs`, `src/stream.rs`, `src/clock.rs`: what the
  scheduler knows of the connection around it.
- `app/`: reading GOP files, the bandwidth estimates, and the loop that runs a
  round on the streams of a transport.

Proof functions whose names begin with `law_` state what holds of the library as
a whole.
