//! Uniswap V4 pools kept in step with the chain.
pub mod abi;
pub mod agreement;
pub mod arith;
pub mod baseline_pool_factory;
pub mod batch_effect;
pub mod block_content;
pub mod completed_block_stream;
pub mod errors;
pub mod event_words;
pub mod events;
pub mod fetch_pool_keys;
pub mod history;
pub mod history_window;
pub mod id_collections;
pub mod liquidity_base;
pub mod pool_key;
pub mod pool_manager_service;
pub mod pool_manager_service_builder;
pub mod pool_registry;
pub mod pool_state;
pub mod pool_swap;
pub mod pool_update_provider;
pub mod ray;
pub mod reorg;
pub mod rewards;
pub mod service_effect;
pub mod shared_pools;
pub mod slot0;
pub mod sorting;
pub mod sqrt_price;
pub mod state_stream;
pub mod swap_accounts;
pub mod tick_bitmap;
pub mod tick_info;
pub mod traits;
pub mod updates;
pub mod words;
