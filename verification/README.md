# dredd-hooks

Hooks for the [Dredd](http://dredd.readthedocs.org/en/latest/) HTTP API testing
framework, written in Rust and verified with Verus.

- `src/` is the verified library: the line protocol (`codec`), the event names
  (`event`), the hook server with its registration and dispatch (`hooks`, `named`,
  `fold`), the integration server's port assignment and message relay
  (`integration`), and the command line of `cargo dredd` (`cli`).
- `app/` holds what runs around it: the TCP servers (tokio), the JSON reading and
  writing (serde), the child processes of the hook files, and the entry points of
  `cargo dredd` and `dredd-hooks-rust`.
- `tests/` exercises the library on concrete values.
