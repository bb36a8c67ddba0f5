# gas_network

A verified library for a network of fuel cards: companies register accounts
and cards with a replicated central server, gas stations batch their sales
and commit them with a regional server by two-phase commit, and the regional
servers report the committed sales back to the central servers. A second,
smaller part ranks the books, authors and publishers of a reading dataset.

- `src/` is the library, verified with Verus: the byte protocol and its
  encoders and decoders (with round-trip laws), the ring election of the
  central servers as a state machine that hands back the actions to carry
  out, the registry of regional servers, the account table, the request
  routing of the central servers, the command line of the administrator, the
  bulk pipeline of the gas stations, and the rankings of the dataset.
- `tests/` runs the library on concrete cases.
- `app/` is the programs around it (one binary with a subcommand per
  program): sockets, threads, JSON, the floating-point account limits, and
  printing.
