# opp

`opp` is a local broker for user-authorized 1Password CLI access on macOS. One
background process keeps a terminal and the authorization of each account, and
independent local programs run `op` through it.

The library in `src/` holds the rules by which the program parses, decides and
answers, verified with Verus:

- `cli`, `account`, `duration`, `binary64`: the command line.
- `codec`, `protocol`, `framing`: the messages between clients and the broker.
- `records`, `broker`, `guarantees`: authorization, checks and commands, and
  what holds of them over all requests, outcomes and instants.
- `process`, `spawn`, `environment`, `signals`: children and what they are
  given.
- `connection`, `startup`, `runtime`: how the broker comes up, serves and stops.
- `client`, `status`, `json`: what the commands write and leave with.
- `bytes`, `clock`: byte strings and deadlines.

The program in `app/` reads, writes, spawns and waits, and asks the library what
to do next. The tests in `tests/` run the library on concrete values.
