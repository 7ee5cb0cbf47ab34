# netflow-collector

A collector for NetFlow v5. It receives flow records over UDP, keeps those whose sender or receiver
is on a list of addresses, and prints them, shows them on a live screen, or stores them in
PostgreSQL together with traffic counters for every five minutes and every day.

- `src/` is the library, verified with Verus: reading packets, the filter, the counters and the
  windows they are kept in, lost records, the health of each window, the statements sent to the
  database and what is carried over when they fail, the lines and the screen.
- `app/` is the program around it: the command line, the config file, sockets, connections, tasks.
- `tests/` runs the library on concrete values.

What the library takes from other crates stands behind small functions marked
`#[verifier::external_body]`: the calendar of `chrono` in `src/time.rs` and the decoder of
`netflow_parser` in `src/parser.rs`. Their contracts are not proved.

The schema of the database is read from `sql/schema.sql` in the directory of the package.
