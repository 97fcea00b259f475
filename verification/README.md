# elisym_core

Agents that find each other over Nostr relays, exchange private messages and pings, and pay
each other in SOL. The library decides; it opens no connection, and it reads the clock only when
a payment request is made, to say how long the request is valid. The functions in `src/` are
verified with Verus against the contract in their header, except for the wrappers around other
crates and std.

| Module | What it holds |
| --- | --- |
| `discovery` | capability cards: publishing, matching, searching, the heartbeat |
| `messaging` | subscriptions to private messages and pings, and waiting for a pong |
| `payment` | the provider interface and fees; Solana requests, transfers and lookups |
| `error` | the error type and its messages |
| `event`, `identity` | Nostr events, relay filters and cards as plain values |
| `dedup`, `ranking`, `text`, `number`, `json` | what the others are built on |

`discovery::laws` and `payment::laws` state what holds across functions: that a published agent
is found, that an agent without one of the requested capabilities is not, that paying a request
moves exactly its amount, that a payment settles its request, that an expired request is
refused.

What another crate computes is behind a small wrapper marked `external_body`, whose contract is
believed and not proved; the comment above each says which function it calls and what is
believed of it.

`app/` connects the library to `nostr-sdk` and `solana-client`. `tests/` runs it on concrete
values.
