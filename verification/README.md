# chain_store

Storage rules of a block chain node, verified with Verus: how blocks, transactions and account
state are laid out in an ordered key-value store, and what is read back from it.

The store itself is outside. An operation of the library names what is to be read, takes what
the read answered, and names the next read, the writes, or the result. `app/` carries the reads
and writes out on RocksDB and turns messages into bytes and back with prost.

## Layout

| Module | Contents |
| --- | --- |
| `codec`, `hash` | numbers as big-endian bytes, byte order, prefixes; hashes |
| `store`, `batch`, `answers` | reads, scans and batches, and their effect on a store |
| `settings` | how a database is opened and how its columns are tuned |
| `block` | blocks and transactions next to their hashes |
| `chain_schema`, `chain_db`, `node_id`, `report`, `chain_error` | the chain database |
| `chain_laws`, `chain_invariant` | what holds of the chain database as a whole |
| `overlay`, `state_schema`, `state_db`, `genesis`, `state_error` | the state database and its layers |
| `state_laws` | what holds of the state database as a whole |

## What is trusted

Each of these wrappers calls one outside function, and its contract is believed:
`codec::read_u64_be`, `codec::write_u64_be` (byteorder), `report::hex_encode` (hex),
`report::decimal` (`u64::to_string`), `node_id::fill_random` (rand), `settings::cpu_count`
(num_cpus), `overlay::deque_back_mut` (`VecDeque::back_mut`).
