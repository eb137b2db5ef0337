# keel

Jails on a cluster of nodes: a control plane decides which node runs which jail, an agent on every node keeps
them and replicates their volumes, a dashboard shows how all of that stands, and an ingress gets certificates.

- `src/` is the library, verified with Verus: everything that is decided or computed. Each function says in its
  contract what it returns and changes; what holds of several of them together stands in the proof functions
  whose names begin with `law_`.
- `app/` is the program around it: sockets, files, processes, TLS connections, YAML and JSON, and whatever is
  floating point.
- `tests/` runs the library on concrete values.

Calls into other crates stand behind small functions in `src/` whose contracts are trusted: they are marked
`external_body`, and say in their comments what is claimed of the call.
