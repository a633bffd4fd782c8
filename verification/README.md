# ca_server

A server for certificate authorities in the RPKI: it creates an embedded trust
anchor and CAs, adds and updates children, answers provisioning messages
(RFC 6492), and keeps CAs up to date with their parents.

The library in `src/` holds all decisions and does no I/O. Each method of
`CaServer` gives an operation: a state machine that asks for one thing at a
time (load a CA, let it process a command, store what came of it, post a
message, ...) and goes on by what it is told. The contract of the method says
which script the operation follows; the modules `laws`, `lifecycle`,
`protocol`, `discipline` and `totality` prove what holds of these scripts, and
`session` and `children` what holds over any number of calls.

`app/` runs operations against an implementation of the outside: store, CAs,
signer, event queue and HTTP client. `tests/` runs them against one in memory.
