# pool_data_rs

Reads the state of decentralized-exchange pools (Uniswap V2, V3, V4 and
Algebra Integral) and the metadata of ERC-20 tokens from an Ethereum JSON-RPC
endpoint.

- `src/` is the library, verified with Verus:
  - `primitives`: addresses, 32-byte words, hex text, Keccak-256 and EIP-55
    checksummed addresses;
  - `ticks`: compressing ticks by the tick spacing, the range of tick-bitmap
    words, and the ticks that a bitmap word marks;
  - `lens`: the ticks that the reverting tick-lens contract reports, read from
    the revert data or from a node's error payload;
  - `parsers`: the pool and token records, built from the answers of the
    contracts' calls, and `TickScan`, which drives the word-by-word reading of
    a V4 pool's ticks;
  - `cli`: the checks on the command line's arguments;
  - `types`: the protocols and the `PoolData` trait.
- `app/` is the command-line program `pool <pool_id> <protocol> <rpc_url>`: it
  makes the RPC calls, hands their answers to the library, and prints the
  record as JSON.
- `tests/` runs the library on concrete values.
