# bpfjailer

The decisions of a kernel sandbox for code agents, verified with Verus: which policy is in
force, what users may add to it, how a client is enrolled, which audit events are logged, and
what the administration commands ask and report.

- `src/text.rs`: strings as sequences of characters.
- `src/common.rs`: roles, rules and policies as data.
- `src/json.rs`: JSON values, read and written by serde_json.
- `src/client/`: the enrollment protocol and the client's reading of it.
- `src/daemon/`: the policy, the extensions of the users, the sessions with clients, the audit
  stream, and the course of the daemon.
- `src/ctl/`: the administration commands.
- `app/`: the programs around the library. They read and write files and sockets, run other
  programs, and convert between the library's types and those that go over the wire.
- `tests/`: the library from outside.

Laws that span functions are public proof functions whose names begin with `law_`. What is taken
on trust of std and of serde_json is said at the few items that are marked so.
