# sui_hooks

What a node tells its clients after a transaction is committed, and how it runs a transaction
without committing it.

- `src/` is the library, verified with Verus.
  - `object`, `object_map`: identifiers, their order, and a sorted map keyed by them.
  - `framing`: payloads behind a four-byte length.
  - `delivery`: one message on its way to many connections, and what every such round keeps.
  - `cache_update_handler`: written objects for clients that mirror objects.
  - `tx_handler`: effects and events for clients that follow transactions.
  - `text`, `pool_related`: the identifiers of watched pools, read from a text file.
  - `commit_hooks`: which notifications a committed transaction gives rise to.
  - `written_objects`, `dry_run`: the stages of a dry run with overridden objects.
- `app/` holds the sockets, files, tasks and serialisation around it.
- `tests/` runs the library on concrete values.

The library believes without proof what it says of `dashmap::DashSet` (`pool_related`) and of
`String::push` (`text`).
