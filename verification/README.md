# Server agent

A server that runs commands on many machines, and the agent that stands on each of
them. The two talk gRPC over TLS. An operator works at the server's console: `list`
shows the agents that are connected, `select <client_id>` picks one, `exit` leaves,
and any other line is a command for the agent that is selected. An agent is listed as
long as its connection is open.

- `src/` is the library, verified with Verus. It decides who is let in, what is kept
  of agents, statuses and replies, what the console prints and where a command goes.
  It also describes a machine's hardware and network from the readings it is given.
- `app/` is the program around it: `server` and `client` as subcommands. It holds the
  sockets, the files, the processes, the terminal, and all floating-point arithmetic.
  The library carries a floating-point number as its bit pattern.
- `tests/` runs the library on concrete values.

The contracts rest on a few items that are trusted, not proved: the channels of
`tokio`, the clock of `chrono`, the PEM reader of `rustls-pemfile`, and the lossy
UTF-8 decoder of the standard library. Each says what it claims in its doc comment.

The server reads the tokens that it lets in from `TOKEN_WHITELIST`, separated by
commas, and its certificates and key from `server.pem` and `server-key.pem`.
