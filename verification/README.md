# Turtle Harbor

Turtle Harbor runs and supervises scripts: a daemon, `turtled`, starts them,
restarts them when they fail, and starts them again when their schedules are due;
a client, `th`, tells the daemon what to do and shows what it answers.

- `src/` is the library: everything that the two programs decide, as functions
  on plain values with contracts that Verus proves.
- `app/` holds the programs themselves: files, sockets, processes and signals.
- `tests/` runs the library on concrete values.

The daemon's core is `daemon::daemon_core::DaemonCore`. It keeps the processes,
the loaded configurations, the schedules, the health of scripts and what is
remembered across restarts. What takes several steps with work outside in between
(starting, stopping, reloading) is carried out by `daemon::runner::Runner`: it says
what is to be done next and is told what came of it.

Laws that relate several functions stand beside them as proof functions whose
names begin with `law_`.

What the library takes on trust is marked `external_body` or
`assume_specification`, and says so in its doc comment: reading a cron expression
and asking when it is next due (`cron`), reading a compressed archive (`tar`,
`flate2`), and appending a character to a `String`.
