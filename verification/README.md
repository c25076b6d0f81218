# uni_v4

Pools of Uniswap V4 as they are kept up to date off chain: what is known of each pool, how events
change it, and what a swap across it would give. The library is written in Verus. Every function
has a contract, and Verus proves that the code keeps it.

- `src/` is the library.
  - Numbers: `words`, `arith`, `ray`, `sqrt_price`, `abi`.
  - A pool: `tick_bitmap`, `tick_info`, `liquidity_base`, `pool_state`, `pool_swap`, `pool_key`,
    `rewards`, `errors`.
  - What happens to pools: `events`, `updates`, `sorting`, `traits`, `shared_pools`, `reorg`,
    `batch_effect`, `agreement`, `history`.
  - Following the chain: `pool_update_provider`, `completed_block_stream`, `state_stream`, `slot0`,
    `fetch_pool_keys`.
  - The service: `id_collections`, `pool_registry`, `baseline_pool_factory`,
    `pool_manager_service`, `pool_manager_service_builder`.
- `tests/` runs the library on concrete values, against `alloy` where it reads or writes what is on
  chain.
- `app/` reads from a node and runs the streams: it hands what it read to the library and does what
  the library asks for. When to load more ticks of a pool is decided by a policy that is handed to
  it.

Price arithmetic comes from `uniswap_v3_math`, 256-bit arithmetic, hashing and the decoding of
calls from `alloy`, and the table of pools from `dashmap`. The functions that call them are marked
`external_body`; the comment above each says what is taken on trust.
