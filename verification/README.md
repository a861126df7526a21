# mewc-solo-pool

A solo stratum mining pool for Meowcoin. Miners name their own address at login, and every block
that they find pays them directly through the coinbase.

`src/` is a Verus library. It holds all that the pool decides:

- `job`, `coinbase`, `transaction`, `hash`, `address`, `target`, `varint`: from a block template to
  coinbase transactions, headers and whole blocks
- `verify`, `pow`: what a share is worth
- `session`, `active_jobs`, `shares`, `dispatch`, `stratum`: what a miner is told, and what becomes
  of what it says
- `node`, `db`, `config`, `clock`, `json`, `ids`, `text`, `bytes`, `hexcode`: calls of the node,
  reports to the database, and the plain values they are made of

Every function states what it does in its contract. Functions named like a sentence, such as
`found_block_is_consistent`, prove what holds across several of them.

`app/` is the daemon around the library: sockets, HTTP, the clock and floating-point figures.
`tests/` runs the library on known values.
