//! Finding the pools that the controller has configured.
use vstd::prelude::*;

use crate::events::{
    decode_pool_configured, decode_pool_fees_configured, decode_pool_removed, pool_configured_of,
    pool_fees_configured_of, pool_removed_of, Log,
};
use crate::pool_key::{PoolKey, PoolKeyWithFees};
use crate::pool_update_provider::{
    configured_key, configured_key_with_fees, removed_key, CONFIGURED_PROTOCOL_FEE,
};
use crate::words::Address;

verus! {

/// How many blocks one query for logs spans at most, beyond its first.
pub const BLOCKS_PER_QUERY: usize = 99_999;

/// The address of the controller is already set, to another one.
#[derive(Clone, Copy, Debug, PartialEq, Eq, Structural)]
pub struct ControllerAlreadySet {
    pub existing: Address,
    pub refused: Address,
}

/// Sets the address of the controller. In test environments, controller
/// address might already be set. This is acceptable as long as it's the same
/// address.
pub fn set_controller_address(slot: &mut Option<Address>, address: Address) -> (r: Result<
    (),
    ControllerAlreadySet,
>)
    ensures
        match *old(slot) {
            Some(existing) => *final(slot) == *old(slot) && r == if existing == address {
                Ok::<(), ControllerAlreadySet>(())
            } else {
                Err(ControllerAlreadySet { existing, refused: address })
            },
            None => *final(slot) == Some(address) && r == Ok::<(), ControllerAlreadySet>(()),
        },
{
    match *slot {
        Some(existing) => if existing == address {
            Ok(())
        } else {
            Err(ControllerAlreadySet { existing, refused: address })
        },
        None => {
            *slot = Some(address);
            Ok(())
        },
    }
}

/// The end of the query that starts at `from`.
pub open spec fn query_end(from: int, end: int) -> int {
    if from + BLOCKS_PER_QUERY <= end {
        from + BLOCKS_PER_QUERY
    } else {
        end
    }
}

/// The block ranges of the queries from one block to another. Each starts at
/// the block that the one before ended at. There is none where nothing lies
/// between the two blocks.
pub open spec fn query_ranges(from: int, end: int) -> Seq<(u64, u64)>
    decreases end - from,
{
    if from >= end {
        Seq::empty()
    } else {
        seq![(from as u64, query_end(from, end) as u64)] + query_ranges(query_end(from, end), end)
    }
}

/// The queries between two blocks leave nothing out: the first starts at the
/// first block, the last ends at the last one, each starts where the one
/// before ended, each but the last spans all the blocks that it may, and the
/// last no more. There is none where nothing lies between the blocks.
pub proof fn query_ranges_cover(from: int, end: int)
    requires
        0 <= from,
        end <= u64::MAX,
    ensures
        ({
            let ranges = query_ranges(from, end);
            &&& ranges.len() == 0 <==> from >= end
            &&& from < end ==> ranges[0].0 == from && ranges.last().1 == end
            &&& forall|i: int|
                0 <= i < ranges.len() ==> (#[trigger] ranges[i]).0 < ranges[i].1 && ranges[i].1
                    - ranges[i].0 <= 99_999 && (i < ranges.len() - 1 ==> ranges[i].1
                    - ranges[i].0 == 99_999)
            &&& forall|i: int, j: int|
                0 <= i && j == i + 1 && j < ranges.len() ==> (#[trigger] ranges[j]).0 == (
                #[trigger] ranges[i]).1
        }),
    decreases end - from,
{
    let next = query_end(from, end);
    let rest = query_ranges(next, end);
    let ranges = query_ranges(from, end);
    if from < end && next < end {
        query_ranges_cover(next, end);
        assert forall|i: int| 0 <= i < ranges.len() implies (#[trigger] ranges[i]).0 < ranges[i].1
            && ranges[i].1 - ranges[i].0 <= 99_999 && (i < ranges.len() - 1 ==> ranges[i].1
            - ranges[i].0 == 99_999) by {
            if i > 0 {
                assert(ranges[i] == rest[i - 1]);
            }
        }
        assert forall|i: int, j: int| 0 <= i && j == i + 1 && j < ranges.len() implies (
        #[trigger] ranges[j]).0 == (#[trigger] ranges[i]).1 by {
            assert(ranges[j] == rest[j - 1]);
            if i > 0 {
                assert(ranges[i] == rest[i - 1]);
            }
        }
        assert(ranges.last() == rest.last());
    } else if from < end {
        assert(rest.len() == 0);
        assert(ranges =~= seq![(from as u64, next as u64)]);
    }
}

/// The block ranges to query for logs from the block of the deployment on.
pub fn block_ranges(deploy_block: usize, end_block: usize) -> (r: Vec<(u64, u64)>)
    ensures
        r@ == query_ranges(deploy_block as int, end_block as int),
{
    let mut ranges: Vec<(u64, u64)> = Vec::new();
    let mut from: usize = deploy_block;
    assert(Seq::<(u64, u64)>::empty() + query_ranges(from as int, end_block as int)
        =~= query_ranges(from as int, end_block as int));
    while from < end_block
        invariant
            ranges@ + query_ranges(from as int, end_block as int) == query_ranges(
                deploy_block as int,
                end_block as int,
            ),
        decreases end_block - from,
    {
        let this_end_block: usize = if BLOCKS_PER_QUERY <= end_block - from {
            from + BLOCKS_PER_QUERY
        } else {
            end_block
        };
        proof {
            let range = (from as u64, this_end_block as u64);
            let rest = query_ranges(this_end_block as int, end_block as int);
            assert(ranges@ + (seq![range] + rest) =~= ranges@.push(range) + rest);
        }
        ranges.push((from as u64, this_end_block as u64));
        from = this_end_block;
    }
    assert(ranges@ + query_ranges(from as int, end_block as int) =~= ranges@);
    ranges
}

/// The pool that a log of the controller configures, in either form of the
/// event.
pub open spec fn configured_pool(log: Log, angstrom_address: Address) -> Option<PoolKeyWithFees> {
    match pool_fees_configured_of(log) {
        Some(event) => Some(
            PoolKeyWithFees {
                pool_key: configured_key_with_fees(event, angstrom_address),
                bundle_fee: event.bundle_fee,
                swap_fee: event.unlocked_fee,
                protocol_fee: event.protocol_unlocked_fee,
            },
        ),
        None => match pool_configured_of(log) {
            Some(event) => Some(
                PoolKeyWithFees {
                    pool_key: configured_key(event, angstrom_address),
                    bundle_fee: event.bundle_fee,
                    swap_fee: event.fee_in_e6,
                    protocol_fee: CONFIGURED_PROTOCOL_FEE,
                },
            ),
            None => None,
        },
    }
}

/// The pools after one log of the controller: a configuration adds its pool, a
/// removal takes out every entry of its key, and another log changes nothing.
pub open spec fn pools_after_log(
    pools: Set<PoolKeyWithFees>,
    log: Log,
    angstrom_address: Address,
) -> Set<PoolKeyWithFees> {
    match configured_pool(log, angstrom_address) {
        Some(pool) => pools.insert(pool),
        None => match pool_removed_of(log) {
            Some(event) => pools.filter(
                |p: PoolKeyWithFees| p.pool_key != removed_key(event, angstrom_address),
            ),
            None => pools,
        },
    }
}

/// The pools after the logs of the controller in turn.
pub open spec fn pools_after_logs(
    logs: Seq<Log>,
    angstrom_address: Address,
) -> Set<PoolKeyWithFees>
    decreases logs.len(),
{
    if logs.len() == 0 {
        Set::empty()
    } else {
        pools_after_log(
            pools_after_logs(logs.drop_last(), angstrom_address),
            logs.last(),
            angstrom_address,
        )
    }
}

/// A pool whose key the last log removes is not among the pools, and one that
/// the last log configures is.
pub proof fn last_log_decides(logs: Seq<Log>, angstrom_address: Address)
    requires
        logs.len() > 0,
    ensures
        configured_pool(logs.last(), angstrom_address) matches Some(pool) ==> pools_after_logs(
            logs,
            angstrom_address,
        ).contains(pool),
        configured_pool(logs.last(), angstrom_address) is None ==> (pool_removed_of(
            logs.last(),
        ) matches Some(event) ==> forall|p: PoolKeyWithFees| #[trigger]
            pools_after_logs(logs, angstrom_address).contains(p) ==> p.pool_key != removed_key(
                event,
                angstrom_address,
            )),
{
}

/// Every pool that is configured has the Angstrom address as its hook, and its
/// bundle fee as the fee of its key.
pub proof fn configured_pools_have_hook(logs: Seq<Log>, angstrom_address: Address)
    ensures
        forall|p: PoolKeyWithFees| #[trigger]
            pools_after_logs(logs, angstrom_address).contains(p) ==> p.pool_key.hooks
                == angstrom_address && p.pool_key.fee == p.bundle_fee,
    decreases logs.len(),
{
    if logs.len() != 0 {
        let before = pools_after_logs(logs.drop_last(), angstrom_address);
        configured_pools_have_hook(logs.drop_last(), angstrom_address);
        assert forall|p: PoolKeyWithFees| #[trigger]
            pools_after_logs(logs, angstrom_address).contains(p) implies p.pool_key.hooks
            == angstrom_address && p.pool_key.fee == p.bundle_fee by {
            match configured_pool(logs.last(), angstrom_address) {
                Some(pool) => {
                    assert(p == pool || before.contains(p));
                },
                None => {
                    assert(before.contains(p));
                },
            }
        }
    }
}

/// One more log of the controller changes its own pool alone. A configuration, in either
/// form of the event, adds the pool with the key and the fees that it gives, a removal
/// takes out every pool of the key that it gives, and any other log changes nothing. The
/// hooks of a pool are those of this controller.
pub proof fn log_changes_its_own_pool(
    logs: Seq<Log>,
    log: Log,
    angstrom_address: Address,
    p: PoolKeyWithFees,
)
    ensures
        ({
            let before = pools_after_logs(logs, angstrom_address);
            let after = pools_after_logs(logs.push(log), angstrom_address);
            &&& pool_fees_configured_of(log) matches Some(event) ==> after.contains(p) == (
            before.contains(p) || p == (PoolKeyWithFees {
                pool_key: PoolKey {
                    currency0: event.asset0,
                    currency1: event.asset1,
                    fee: event.bundle_fee,
                    tick_spacing: event.tick_spacing as i32,
                    hooks: angstrom_address,
                },
                bundle_fee: event.bundle_fee,
                swap_fee: event.unlocked_fee,
                protocol_fee: event.protocol_unlocked_fee,
            }))
            &&& pool_configured_of(log) matches Some(event) ==> after.contains(p) == (
            before.contains(p) || p == (PoolKeyWithFees {
                pool_key: PoolKey {
                    currency0: event.asset0,
                    currency1: event.asset1,
                    fee: event.bundle_fee,
                    tick_spacing: event.tick_spacing as i32,
                    hooks: angstrom_address,
                },
                bundle_fee: event.bundle_fee,
                swap_fee: event.fee_in_e6,
                protocol_fee: 500,
            }))
            &&& pool_removed_of(log) matches Some(event) ==> after.contains(p) == (before.contains(
                p,
            ) && p.pool_key != (PoolKey {
                currency0: event.asset0,
                currency1: event.asset1,
                fee: event.fee_in_e6,
                tick_spacing: event.tick_spacing,
                hooks: angstrom_address,
            }))
            &&& pool_fees_configured_of(log) is None && pool_configured_of(log) is None
                && pool_removed_of(log) is None ==> after == before
        }),
        pools_after_logs(Seq::empty(), angstrom_address).is_empty(),
{
    assert(logs.push(log).drop_last() =~= logs);
    assert(logs.push(log).last() == log);
}

/// Adds a pool, unless it is there already.
fn add_pool(pools: &mut Vec<PoolKeyWithFees>, pool: PoolKeyWithFees)
    requires
        old(pools)@.no_duplicates(),
    ensures
        final(pools)@.no_duplicates(),
        final(pools)@.to_set() == old(pools)@.to_set().insert(pool),
{
    let mut i: usize = 0;
    while i < pools.len()
        invariant
            i <= pools.len(),
            pools@ == old(pools)@,
            pools@.no_duplicates(),
            forall|j: int| 0 <= j < i ==> pools@[j] != pool,
        decreases pools.len() - i,
    {
        if pools[i] == pool {
            assert(pools@.to_set().insert(pool) =~= pools@.to_set()) by {
                assert(pools@.contains(pools@[i as int]));
            }
            return;
        }
        i = i + 1;
    }
    pools.push(pool);
    proof {
        let before = old(pools)@;
        let after = pools@;
        assert forall|p: PoolKeyWithFees| #[trigger]
            after.to_set().contains(p) == before.to_set().insert(pool).contains(p) by {
            if after.contains(p) {
                let k = choose|k: int| 0 <= k < after.len() && after[k] == p;
                if k < before.len() {
                    assert(before[k] == p);
                }
            }
            if before.contains(p) {
                let k = choose|k: int| 0 <= k < before.len() && before[k] == p;
                assert(after[k] == p);
            }
            assert(after[before.len() as int] == pool);
        }
        assert(after.to_set() =~= before.to_set().insert(pool));
    }
}

/// Keeps the pools of other keys.
fn drop_key(pools: &Vec<PoolKeyWithFees>, key: PoolKey) -> (r: Vec<PoolKeyWithFees>)
    requires
        pools@.no_duplicates(),
    ensures
        r@.no_duplicates(),
        r@.to_set() == pools@.to_set().filter(|p: PoolKeyWithFees| p.pool_key != key),
{
    let mut out: Vec<PoolKeyWithFees> = Vec::new();
    let mut i: usize = 0;
    while i < pools.len()
        invariant
            i <= pools.len(),
            pools@.no_duplicates(),
            out@.no_duplicates(),
            forall|p: PoolKeyWithFees| #[trigger]
                out@.contains(p) <==> p.pool_key != key && exists|j: int|
                    0 <= j < i && pools@[j] == p,
        decreases pools.len() - i,
    {
        let ghost before = out@;
        let pool: PoolKeyWithFees = pools[i];
        if pool.pool_key != key {
            proof {
                if before.contains(pool) {
                    let j = choose|j: int| 0 <= j < i && pools@[j] == pool;
                    assert(pools@[j] != pools@[i as int]);
                }
            }
            out.push(pool);
        }
        i = i + 1;
        proof {
            assert forall|p: PoolKeyWithFees| #[trigger]
                out@.contains(p) <==> p.pool_key != key && exists|j: int|
                    0 <= j < i && pools@[j] == p by {
                if out@.contains(p) {
                    let k = choose|k: int| 0 <= k < out@.len() && out@[k] == p;
                    if k < before.len() {
                        assert(before[k] == p);
                        assert(before.contains(p));
                    } else {
                        assert(pools@[i - 1] == p);
                    }
                }
                if p.pool_key != key && exists|j: int| 0 <= j < i && pools@[j] == p {
                    let j = choose|j: int| 0 <= j < i && pools@[j] == p;
                    if j < i - 1 {
                        assert(before.contains(p));
                        let k = choose|k: int| 0 <= k < before.len() && before[k] == p;
                        assert(out@[k] == p);
                    } else {
                        assert(out@[out@.len() - 1] == p);
                    }
                }
            }
        }
    }
    proof {
        let kept = pools@.to_set().filter(|p: PoolKeyWithFees| p.pool_key != key);
        assert forall|p: PoolKeyWithFees| #[trigger] out@.to_set().contains(p) == kept.contains(
            p,
        ) by {
            if kept.contains(p) {
                let k = choose|k: int| 0 <= k < pools@.len() && pools@[k] == p;
                assert(out@.contains(p));
            }
            if out@.contains(p) {
                let j = choose|j: int| 0 <= j < i && pools@[j] == p;
                assert(pools@.contains(p));
            }
        }
        assert(out@.to_set() =~= kept);
    }
    out
}

/// Reads the pool that a log of the controller configures.
fn read_configured_pool(log: &Log, angstrom_address: Address) -> (r: Option<PoolKeyWithFees>)
    ensures
        r == configured_pool(*log, angstrom_address),
{
    if let Some(pool) = decode_pool_fees_configured(log) {
        return Some(
            PoolKeyWithFees {
                pool_key: PoolKey {
                    currency0: pool.asset0,
                    currency1: pool.asset1,
                    fee: pool.bundle_fee,
                    tick_spacing: pool.tick_spacing as i32,
                    hooks: angstrom_address,
                },
                bundle_fee: pool.bundle_fee,
                swap_fee: pool.unlocked_fee,
                protocol_fee: pool.protocol_unlocked_fee,
            },
        );
    }
    match decode_pool_configured(log) {
        Some(pool) => Some(
            PoolKeyWithFees {
                pool_key: PoolKey {
                    currency0: pool.asset0,
                    currency1: pool.asset1,
                    fee: pool.bundle_fee,
                    tick_spacing: pool.tick_spacing as i32,
                    hooks: angstrom_address,
                },
                bundle_fee: pool.bundle_fee,
                swap_fee: pool.fee_in_e6,
                protocol_fee: CONFIGURED_PROTOCOL_FEE,
            },
        ),
        None => None,
    }
}

/// The pools that are configured after the logs of the controller, each once.
pub fn fetch_angstrom_pools(logs: &Vec<Log>, angstrom_address: Address) -> (r: Vec<PoolKeyWithFees>)
    ensures
        r@.no_duplicates(),
        r@.to_set() == pools_after_logs(logs@, angstrom_address),
{
    let mut pools: Vec<PoolKeyWithFees> = Vec::new();
    let mut i: usize = 0;
    assert(pools@.to_set() =~= Set::<PoolKeyWithFees>::empty());
    while i < logs.len()
        invariant
            i <= logs.len(),
            pools@.no_duplicates(),
            pools@.to_set() == pools_after_logs(logs@.take(i as int), angstrom_address),
        decreases logs.len() - i,
    {
        let log: &Log = &logs[i];
        assert(logs@.take(i + 1).drop_last() =~= logs@.take(i as int));
        assert(logs@.take(i + 1).last() == *log);
        match read_configured_pool(log, angstrom_address) {
            Some(pool) => {
                add_pool(&mut pools, pool);
            },
            None => match decode_pool_removed(log) {
                Some(pool) => {
                    let key: PoolKey = PoolKey {
                        currency0: pool.asset0,
                        currency1: pool.asset1,
                        fee: pool.fee_in_e6,
                        tick_spacing: pool.tick_spacing,
                        hooks: angstrom_address,
                    };
                    pools = drop_key(&pools, key);
                },
                None => {},
            },
        }
        i = i + 1;
    }
    assert(logs@.take(i as int) =~= logs@);
    pools
}

} // verus!
