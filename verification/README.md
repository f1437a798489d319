# clipmesh

A clipboard mesh for Wayland hosts: what is copied on one host can be pasted on the others.

- `src/` is the library, verified with Verus: the wire protocol's values and hashes, the
  configuration and its template, the MIME rules file, the clipboard offer budget, the
  clipboard watchers and Mutter sessions as state machines, the peer table, connections and
  dialing, the file watcher's decisions, and the command line's parsing and output.
- `app/` is the program around it: files, sockets, inotify, Wayland and D-Bus.
- `tests/` runs the library on concrete values.

A contract is stated over mathematical models: a text is a `Seq<char>`, an offer is a list of
pairs of a type and its bytes, and a TOML document is a map of its fields. Results of outside
crates that take pages to describe have a name instead, and the wrapper that makes the call
says that it returns what the name stands for.
