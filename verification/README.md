# regional_ws

A regionally distributed WebSocket chat service. Clients connect to their
nearest regional server; a server delivers messages for its own users
directly and forwards messages for users of other regions over NATS
(subject `messages.<region>`); every region hears `presence` events and keeps
a map of where each user is. A global router tells clients which server
serves a region.

Layout:

- `src/` — the library, verified with Verus: the routing decisions of a
  regional server (`server`), its maps (`maps`, over `dashmap`), the NATS
  messages (`nats`), the router (`router`), the configuration (`config`), the
  client's argument and output logic (`client`) and the string operations
  they share (`text`). Laws that span several operations are proof functions
  named `law_*`.
- `app/` — the programs: the regional server (axum, async-nats, tokio), the
  router (`router` subcommand) and the client (`client` subcommand). They
  read the environment and the network, turn JSON into the library's values
  and back, and carry out the actions that the library decides on.
- `tests/` — tests of the library on concrete values.

Running:

```
REGION_ID=us-east PORT=3001 NATS_URL=nats://localhost:4222 regional-ws
REGION_MAP=us-east=ws://localhost:3001/ws,eu-west=ws://localhost:3002/ws regional-ws router
regional-ws client --user-id=alice --region=us-east --to=bob
```
