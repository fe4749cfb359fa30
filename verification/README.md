# pneumatic_core

The core of a proof-of-stake network whose services are committers, sentinels,
executors, finalizers and archivers. The library is written in Verus: what a
function computes is stated in its contract and proved.

| Module | What it holds |
|---|---|
| `blocks`, `tokens`, `transactions` | blocks, chains, transactions and the ordered pool |
| `epoch` | epochs, stake and executor sets, leader selection, routing to shards, block proposals |
| `registry` | pending transactions with their nonces, spent nullifiers, collected signatures |
| `node` | roles, registration, directory sync, heartbeats, fan-out, the stake index |
| `crypto`, `primitives` | hybrid signatures and hybrid encryption over outside primitives |
| `auth`, `gossiper`, `messages`, `action_router` | signed envelopes, dedup and delivery, routing of actions |
| `conns`, `data` | framing of the data channel, connection plans, requests to the data service |
| `config`, `environment`, `logging`, `errors`, `rns`, `user` | configuration, pricing, identities, error types |
| `bytes`, `text`, `sorted_map`, `keyed_store`, `encoding` | the containers and encodings underneath |

Outside crates are called through small functions whose contracts say what is
relied on; they stand in `primitives`, `encoding`, `keyed_store`, `gossiper`,
`text`, `blocks` and `epoch::leader`.

`app/` holds what talks to the outside: sockets, files, threads, and the encoded
forms of the library's types.
