# agent-env

Control logic of an agent environment: agents run in virtual machines without real
credentials, and reach the outside only through an egress proxy on the host, which lets
through what is allowed and puts the real keys in.

- `src/` is the library. It is written in Verus, and its functions are proved against their
  contracts. What they rest on without proof are eleven wrappers, marked
  `#[verifier::external_body]`, and one `assume_specification`: each says in its comment
  which function of the standard library or of another crate it stands for, and what is
  claimed of it.
  - `proxy`: what the proxy lets through, to where, and with which key; the session
    interface; reading requests.
  - `single_key`: the same with one key for each session, or one for all.
  - `session`: sessions, what the database keeps of them, and what is made of that after
    a restart.
  - `vault`: where keys come from.
  - `vm_manager`: launching environments and taking them down; addresses, interfaces,
    rules and files of their machines.
  - `certs`, `stream`, `clock`: certificates, relays, points in time.
  - `text`, `unicode`, `bytes`, `numbers`, `strmap`: the tools beneath.
- `app/` is ordinary Rust around the library: sockets, TLS, the database, Firecracker.
- `tests/` runs the library.

Laws that hold across functions are public proof functions whose names begin with `law_`.
