# chall_gate

The verified core of a challenge gateway. Teams connect over TCP, type a team
token, are checked against the contest's team list, wait in line for one of a
bounded number of slots, and are then handed a freshly reverted virtual machine
whose port 8000 is forwarded to a random public port for a limited time.

- `src/` — the library, verified with Verus:
  - `session.rs`: the conversation with one team as a state machine (events in,
    actions out), its notices, and the joint register-and-queue steps;
  - `queue.rs`: the slot queue (admission, first-in-first-out waiting);
  - `registry.rs`: the set of teams holding or waiting for an instance;
  - `pool.rs`: the bookkeeping of the pool of started instances;
  - `vm.rs`: the virtual machines, their initial pool and task life cycle;
  - `token.rs`: decoding, hashing and checking of team tokens;
  - `forward.rs`: choice of forward ports and targets;
  - `text.rs`: decimal rendering.
- `app/` — the program around it: sockets, timers, channels, the HTTP call to
  the team service and the `vmrun` commands.
- `tests/` — tests of the library.
