//! The registry of known pools.
use vstd::prelude::*;

use crate::id_collections::{
    distinct_keys, has_key, key_index, map_of, map_of_entry, PoolIdMap,
};
use crate::pool_key::{pool_id_of, private_key_of, PoolKey};
use crate::words::{address_view_injective, Address, PoolId};

verus! {

/// What a registry holds: the keys of pools by their public identifiers, the
/// private identifier of each public one, and the public identifier of each
/// private one.
#[verifier::ext_equal]
pub struct RegistryView {
    pub pools: Map<PoolId, PoolKey>,
    pub conversion_map: Map<PoolId, PoolId>,
    pub reverse_conversion_map: Map<PoolId, PoolId>,
}

/// The pools that are known, under their public identifiers, and how these
/// convert to the private ones that the pools go by on chain.
#[derive(Debug)]
pub struct UniswapPoolRegistry {
    pub pools: PoolIdMap<PoolKey>,
    pub conversion_map: PoolIdMap<PoolId>,
    pub reverse_conversion_map: PoolIdMap<PoolId>,
}

impl View for UniswapPoolRegistry {
    type V = RegistryView;

    open spec fn view(&self) -> RegistryView {
        RegistryView {
            pools: self.pools@,
            conversion_map: self.conversion_map@,
            reverse_conversion_map: self.reverse_conversion_map@,
        }
    }
}

impl Clone for UniswapPoolRegistry {
    fn clone(&self) -> (r: UniswapPoolRegistry)
        ensures
            r@ == self@,
            r.pools.order() == self.pools.order(),
    {
        UniswapPoolRegistry {
            pools: self.pools.clone(),
            conversion_map: self.conversion_map.clone(),
            reverse_conversion_map: self.reverse_conversion_map.clone(),
        }
    }
}

impl Default for UniswapPoolRegistry {
    fn default() -> (r: UniswapPoolRegistry)
        ensures
            r@ == empty_registry(),
    {
        UniswapPoolRegistry::new()
    }
}

/// The registry with one more pool.
pub open spec fn with_pool(registry: RegistryView, key: PoolKey) -> RegistryView {
    let public = pool_id_of(key);
    let private = pool_id_of(private_key_of(key));
    RegistryView {
        pools: registry.pools.insert(public, key),
        conversion_map: registry.conversion_map.insert(public, private),
        reverse_conversion_map: registry.reverse_conversion_map.insert(private, public),
    }
}

/// The registry that has no pool.
pub open spec fn empty_registry() -> RegistryView {
    RegistryView {
        pools: Map::empty(),
        conversion_map: Map::empty(),
        reverse_conversion_map: Map::empty(),
    }
}

/// The registry with pools added in turn.
pub open spec fn with_pools(registry: RegistryView, keys: Seq<PoolKey>) -> RegistryView
    decreases keys.len(),
{
    if keys.len() == 0 {
        registry
    } else {
        with_pool(with_pools(registry, keys.drop_last()), keys.last())
    }
}

/// The registry after a pool was taken out.
pub open spec fn without_pool(registry: RegistryView, id: PoolId) -> RegistryView {
    RegistryView {
        pools: registry.pools.remove(id),
        conversion_map: registry.conversion_map.remove(id),
        reverse_conversion_map: if registry.conversion_map.contains_key(id)
            && registry.reverse_conversion_map.contains_key(registry.conversion_map[id])
            && registry.reverse_conversion_map[registry.conversion_map[id]] == id {
            registry.reverse_conversion_map.remove(registry.conversion_map[id])
        } else {
            registry.reverse_conversion_map
        },
    }
}

/// The public identifier of the pool that goes by an identifier on chain, or
/// the identifier itself where no such pool is known.
pub open spec fn public_id(registry: RegistryView, id: PoolId) -> PoolId {
    if registry.reverse_conversion_map.contains_key(id) {
        registry.reverse_conversion_map[id]
    } else {
        id
    }
}

/// Whether a registry is made of its keys: each key stands under its own
/// identifier, converts to that of its private key, and is what that converts
/// back to.
pub open spec fn is_consistent(registry: RegistryView) -> bool {
    &&& registry.pools.dom() == registry.conversion_map.dom()
    &&& forall|id: PoolId| #[trigger]
        registry.pools.contains_key(id) ==> id == pool_id_of(registry.pools[id])
            && registry.conversion_map[id] == pool_id_of(private_key_of(registry.pools[id]))
    &&& forall|id: PoolId| #[trigger]
        registry.conversion_map.contains_key(id) ==> registry.reverse_conversion_map.contains_key(
            registry.conversion_map[id],
        ) && registry.reverse_conversion_map[registry.conversion_map[id]] == id
    &&& forall|id: PoolId| #[trigger]
        registry.reverse_conversion_map.contains_key(id) ==> registry.conversion_map.contains_key(
            registry.reverse_conversion_map[id],
        ) && registry.conversion_map[registry.reverse_conversion_map[id]] == id
}

/// Adding a pool to a consistent registry leaves it consistent, where the pool
/// is the only one of its key and the only one that goes by its identifier on
/// chain.
pub proof fn adding_keeps_consistent(registry: RegistryView, key: PoolKey)
    requires
        is_consistent(registry),
        registry.pools.contains_key(pool_id_of(key)) ==> registry.pools[pool_id_of(key)] == key,
        registry.reverse_conversion_map.contains_key(pool_id_of(private_key_of(key)))
            ==> registry.reverse_conversion_map[pool_id_of(private_key_of(key))] == pool_id_of(key),
    ensures
        is_consistent(with_pool(registry, key)),
{
    let after = with_pool(registry, key);
    let public = pool_id_of(key);
    let private = pool_id_of(private_key_of(key));
    assert(after.pools.dom() =~= after.conversion_map.dom());
    assert forall|id: PoolId| #[trigger] after.conversion_map.contains_key(
        id,
    ) implies after.reverse_conversion_map.contains_key(after.conversion_map[id])
        && after.reverse_conversion_map[after.conversion_map[id]] == id by {
        if id != public {
            assert(registry.conversion_map.contains_key(id));
        }
    }
    assert forall|id: PoolId| #[trigger] after.reverse_conversion_map.contains_key(
        id,
    ) implies after.conversion_map.contains_key(after.reverse_conversion_map[id])
        && after.conversion_map[after.reverse_conversion_map[id]] == id by {
        if id != private {
            assert(registry.reverse_conversion_map.contains_key(id));
            if registry.reverse_conversion_map[id] == public {
                assert(registry.pools.dom().contains(public));
                assert(registry.pools.contains_key(public));
            }
        }
    }
}

/// Taking a pool out of a consistent registry leaves it consistent.
pub proof fn removing_keeps_consistent(registry: RegistryView, id: PoolId)
    requires
        is_consistent(registry),
    ensures
        is_consistent(without_pool(registry, id)),
{
    let after = without_pool(registry, id);
    assert(after.pools.dom() =~= after.conversion_map.dom());
    assert forall|k: PoolId| #[trigger] after.conversion_map.contains_key(
        k,
    ) implies after.reverse_conversion_map.contains_key(after.conversion_map[k])
        && after.reverse_conversion_map[after.conversion_map[k]] == k by {
        assert(registry.conversion_map.contains_key(k));
    }
    assert forall|k: PoolId| #[trigger] after.reverse_conversion_map.contains_key(
        k,
    ) implies after.conversion_map.contains_key(after.reverse_conversion_map[k])
        && after.conversion_map[after.reverse_conversion_map[k]] == k by {
        assert(registry.reverse_conversion_map.contains_key(k));
        if registry.reverse_conversion_map[k] == id {
            assert(registry.conversion_map.contains_key(id));
        }
    }
}

/// A registry without pools is consistent.
pub proof fn empty_is_consistent()
    ensures
        is_consistent(empty_registry()),
{
    assert(empty_registry().pools.dom() =~= empty_registry().conversion_map.dom());
}

/// Whether no two of some keys share an identifier.
pub open spec fn ids_tell_apart(keys: Seq<PoolKey>) -> bool {
    forall|i: int, j: int|
        0 <= i < keys.len() && 0 <= j < keys.len() && pool_id_of(#[trigger] keys[i]) == pool_id_of(
            #[trigger] keys[j],
        ) ==> keys[i] == keys[j]
}

/// Whether no two of some keys share an identifier on chain.
pub open spec fn private_ids_tell_apart(keys: Seq<PoolKey>) -> bool {
    forall|i: int, j: int|
        0 <= i < keys.len() && 0 <= j < keys.len() && pool_id_of(
            private_key_of(#[trigger] keys[i]),
        ) == pool_id_of(private_key_of(#[trigger] keys[j])) ==> keys[i] == keys[j]
}

/// The first keys share no identifier if none of the keys do.
proof fn front_tells_apart(keys: Seq<PoolKey>)
    requires
        keys.len() > 0,
    ensures
        ids_tell_apart(keys) ==> ids_tell_apart(keys.drop_last()),
        private_ids_tell_apart(keys) ==> private_ids_tell_apart(keys.drop_last()),
{
    let front = keys.drop_last();
    assert forall|i: int| 0 <= i < front.len() implies #[trigger] front[i] == keys[i] by {}
}

/// What a registry made of keys holds: each key under its identifier.
#[verifier::spinoff_prover]
proof fn registry_of_keys_holds(keys: Seq<PoolKey>)
    requires
        ids_tell_apart(keys),
    ensures
        forall|i: int|
            0 <= i < keys.len() ==> with_pools(empty_registry(), keys).pools.contains_key(
                pool_id_of(#[trigger] keys[i]),
            ) && with_pools(empty_registry(), keys).pools[pool_id_of(keys[i])] == keys[i],
        forall|id: PoolId| #[trigger]
            with_pools(empty_registry(), keys).pools.contains_key(id) ==> keys.contains(
                with_pools(empty_registry(), keys).pools[id],
            ) && id == pool_id_of(with_pools(empty_registry(), keys).pools[id]),
    decreases keys.len(),
{
    if keys.len() != 0 {
        let front = keys.drop_last();
        let last = keys.last();
        let before = with_pools(empty_registry(), front);
        let after = with_pools(empty_registry(), keys);
        front_tells_apart(keys);
        registry_of_keys_holds(front);
        assert(keys[keys.len() - 1] == last);
        assert(after.pools == before.pools.insert(pool_id_of(last), last));
        assert forall|i: int| 0 <= i < keys.len() implies after.pools.contains_key(
            pool_id_of(#[trigger] keys[i]),
        ) && after.pools[pool_id_of(keys[i])] == keys[i] by {
            if pool_id_of(keys[i]) == pool_id_of(last) {
                assert(pool_id_of(keys[i]) == pool_id_of(keys[keys.len() - 1]));
            } else {
                assert(front[i] == keys[i]);
            }
        }
        assert forall|id: PoolId| #[trigger] after.pools.contains_key(id) implies keys.contains(
            after.pools[id],
        ) && id == pool_id_of(after.pools[id]) by {
            if id != pool_id_of(last) {
                assert(before.pools.contains_key(id));
                let k = choose|k: int| 0 <= k < front.len() && front[k] == before.pools[id];
                assert(keys[k] == front[k]);
            }
        }
    }
}

/// Adding pools in turn, some first and then the others, is adding them all: a
/// registry that is made of keys is what adding each of them in their order
/// gives.
#[verifier::spinoff_prover]
pub proof fn adding_in_turn(registry: RegistryView, first: Seq<PoolKey>, then: Seq<PoolKey>)
    ensures
        with_pools(registry, first + then) == with_pools(with_pools(registry, first), then),
    decreases then.len(),
{
    if then.len() == 0 {
        assert(first + then =~= first);
    } else {
        assert((first + then).drop_last() =~= first + then.drop_last());
        adding_in_turn(registry, first, then.drop_last());
    }
}

/// What a registry made of keys is, where no two keys share an identifier: it
/// holds each key under its identifier, and nothing else. Each identifier
/// converts to that of the private key, and each private one leads to a public
/// one that converts back to it, also where several keys share it.
#[verifier::spinoff_prover]
pub proof fn registry_of_keys(keys: Seq<PoolKey>)
    requires
        ids_tell_apart(keys),
    ensures
        ({
            let registry = with_pools(empty_registry(), keys);
            &&& forall|i: int|
                0 <= i < keys.len() ==> {
                    let public = pool_id_of(#[trigger] keys[i]);
                    let private = pool_id_of(private_key_of(keys[i]));
                    &&& registry.pools.contains_key(public) && registry.pools[public] == keys[i]
                    &&& registry.conversion_map.contains_key(public)
                        && registry.conversion_map[public] == private
                    &&& registry.reverse_conversion_map.contains_key(private)
                }
            &&& forall|id: PoolId| #[trigger]
                registry.pools.contains_key(id) ==> keys.contains(registry.pools[id]) && id
                    == pool_id_of(registry.pools[id])
            &&& registry.conversion_map.dom() == registry.pools.dom()
            &&& forall|p: PoolId| #[trigger]
                registry.reverse_conversion_map.contains_key(p)
                    ==> registry.conversion_map.contains_key(registry.reverse_conversion_map[p])
                    && registry.conversion_map[registry.reverse_conversion_map[p]] == p
        }),
    decreases keys.len(),
{
    let registry = with_pools(empty_registry(), keys);
    registry_of_keys_holds(keys);
    if keys.len() == 0 {
        assert(registry.conversion_map.dom() =~= registry.pools.dom());
    } else {
        let front = keys.drop_last();
        let last = keys.last();
        let before = with_pools(empty_registry(), front);
        let public = pool_id_of(last);
        let private = pool_id_of(private_key_of(last));
        front_tells_apart(keys);
        registry_of_keys(front);
        assert(keys[keys.len() - 1] == last);
        assert(registry.conversion_map.dom() =~= registry.pools.dom());
        // a key that is there already under the identifier of the last is the last
        if before.pools.contains_key(public) {
            let k = choose|k: int| 0 <= k < front.len() && front[k] == before.pools[public];
            assert(pool_id_of(keys[k]) == pool_id_of(keys[keys.len() - 1]));
            assert(front[k] == last);
            assert(before.conversion_map[public] == private);
        }
        assert forall|i: int| 0 <= i < keys.len() implies registry.conversion_map.contains_key(
            pool_id_of(#[trigger] keys[i]),
        ) && registry.conversion_map[pool_id_of(keys[i])] == pool_id_of(private_key_of(keys[i]))
            && registry.reverse_conversion_map.contains_key(
            pool_id_of(private_key_of(keys[i])),
        ) by {
            if i < front.len() {
                assert(front[i] == keys[i]);
                if pool_id_of(keys[i]) == public {
                    assert(pool_id_of(keys[i]) == pool_id_of(keys[keys.len() - 1]));
                }
            }
        }
        assert forall|p: PoolId| #[trigger]
            registry.reverse_conversion_map.contains_key(
                p,
            ) implies registry.conversion_map.contains_key(registry.reverse_conversion_map[p])
            && registry.conversion_map[registry.reverse_conversion_map[p]] == p by {
            if p != private {
                assert(before.reverse_conversion_map.contains_key(p));
                if before.reverse_conversion_map[p] == public {
                    assert(before.conversion_map.dom().contains(public));
                    assert(before.pools.contains_key(public));
                }
            }
        }
    }
}

/// A registry made of keys of which no two share an identifier knows exactly
/// these keys.
pub proof fn registry_knows_its_keys(keys: Seq<PoolKey>)
    requires
        ids_tell_apart(keys),
    ensures
        forall|key: PoolKey| #[trigger]
            is_known_key(with_pools(empty_registry(), keys), key) <==> keys.contains(key),
{
    let registry = with_pools(empty_registry(), keys);
    registry_of_keys_holds(keys);
    assert forall|key: PoolKey| #[trigger] is_known_key(registry, key) <==> keys.contains(key) by {
        if keys.contains(key) {
            let k = choose|k: int| 0 <= k < keys.len() && keys[k] == key;
            assert(registry.pools.contains_key(pool_id_of(keys[k])));
        }
    }
}

/// A registry made of keys of which no two share an identifier, neither the
/// public one nor the one on chain, is consistent.
pub proof fn registry_of_keys_is_consistent(keys: Seq<PoolKey>)
    requires
        ids_tell_apart(keys),
        private_ids_tell_apart(keys),
    ensures
        is_consistent(with_pools(empty_registry(), keys)),
    decreases keys.len(),
{
    if keys.len() == 0 {
        empty_is_consistent();
    } else {
        let front = keys.drop_last();
        let last = keys.last();
        let before = with_pools(empty_registry(), front);
        let private = pool_id_of(private_key_of(last));
        front_tells_apart(keys);
        registry_of_keys_is_consistent(front);
        registry_of_keys_holds(front);
        assert(keys[keys.len() - 1] == last);
        if before.pools.contains_key(pool_id_of(last)) {
            let found = before.pools[pool_id_of(last)];
            let k = choose|k: int| 0 <= k < front.len() && front[k] == found;
            assert(keys[k] == found);
            assert(pool_id_of(keys[k]) == pool_id_of(keys[keys.len() - 1]));
        }
        if before.reverse_conversion_map.contains_key(private) {
            let other = before.reverse_conversion_map[private];
            assert(before.conversion_map.dom().contains(other));
            assert(before.pools.contains_key(other));
            let k = choose|k: int| 0 <= k < front.len() && front[k] == before.pools[other];
            assert(keys[k] == before.pools[other]);
            assert(pool_id_of(private_key_of(keys[k])) == pool_id_of(
                private_key_of(keys[keys.len() - 1]),
            ));
        }
        adding_keeps_consistent(before, last);
    }
}

/// A pool that was added is found under its public identifier, and its
/// identifiers convert to each other.
pub proof fn added_pool_is_found(registry: RegistryView, key: PoolKey)
    ensures
        ({
            let after = with_pool(registry, key);
            let public = pool_id_of(key);
            let private = pool_id_of(private_key_of(key));
            &&& after.pools.contains_key(public) && after.pools[public] == key
            &&& after.conversion_map.contains_key(public) && after.conversion_map[public] == private
            &&& after.reverse_conversion_map.contains_key(private)
                && after.reverse_conversion_map[private] == public
        }),
{
}

/// Whether an identifier is the private one of a pool.
pub open spec fn is_private_id(registry: RegistryView, id: PoolId) -> bool {
    exists|public: PoolId| #[trigger]
        registry.conversion_map.contains_key(public) && registry.conversion_map[public] == id
}

/// Whether a key is that of a pool.
pub open spec fn is_known_key(registry: RegistryView, key: PoolKey) -> bool {
    exists|id: PoolId| #[trigger]
        registry.pools.contains_key(id) && registry.pools[id] == key
}

/// The lower of two addresses and the higher one.
pub open spec fn sorted_pair(a: Address, b: Address) -> (Address, Address) {
    if a@ < b@ {
        (a, b)
    } else {
        (b, a)
    }
}

/// Two addresses, the lower one first.
pub fn sort_pair(a: Address, b: Address) -> (r: (Address, Address))
    ensures
        r == sorted_pair(a, b),
{
    if a.lt(&b) {
        (a, b)
    } else {
        (b, a)
    }
}

/// The order of two tokens does not matter.
pub proof fn sorted_pair_commutes(a: Address, b: Address)
    ensures
        sorted_pair(a, b) == sorted_pair(b, a),
{
    if a@ == b@ {
        address_view_injective(a, b);
    }
}

/// Whether a key is one of a pool of two tokens.
pub open spec fn has_tokens(key: PoolKey, token0: Address, token1: Address) -> bool {
    (key.currency0, key.currency1) == sorted_pair(token0, token1)
}

/// The keys of the pools of two tokens among some entries.
pub open spec fn keys_with_tokens(
    entries: Seq<(PoolId, PoolKey)>,
    token0: Address,
    token1: Address,
) -> Seq<PoolKey>
    decreases entries.len(),
{
    if entries.len() == 0 {
        Seq::empty()
    } else if has_tokens(entries.last().1, token0, token1) {
        keys_with_tokens(entries.drop_last(), token0, token1).push(entries.last().1)
    } else {
        keys_with_tokens(entries.drop_last(), token0, token1)
    }
}

/// The identifiers of the pools of two tokens among some entries.
pub open spec fn ids_with_tokens(
    entries: Seq<(PoolId, PoolKey)>,
    token0: Address,
    token1: Address,
) -> Seq<PoolId>
    decreases entries.len(),
{
    if entries.len() == 0 {
        Seq::empty()
    } else if has_tokens(entries.last().1, token0, token1) {
        ids_with_tokens(entries.drop_last(), token0, token1).push(entries.last().0)
    } else {
        ids_with_tokens(entries.drop_last(), token0, token1)
    }
}

/// The pools of two tokens are the same in whatever order the tokens come, and
/// each of them is an entry of these tokens.
pub proof fn ids_with_tokens_are_of_the_pair(
    entries: Seq<(PoolId, PoolKey)>,
    token0: Address,
    token1: Address,
)
    ensures
        ids_with_tokens(entries, token0, token1) == ids_with_tokens(entries, token1, token0),
        forall|id: PoolId| #[trigger]
            ids_with_tokens(entries, token0, token1).contains(id) <==> exists|i: int|
                0 <= i < entries.len() && (#[trigger] entries[i]).0 == id && has_tokens(
                    entries[i].1,
                    token0,
                    token1,
                ),
    decreases entries.len(),
{
    sorted_pair_commutes(token0, token1);
    if entries.len() != 0 {
        let front = entries.drop_last();
        let found = ids_with_tokens(front, token0, token1);
        let all = ids_with_tokens(entries, token0, token1);
        ids_with_tokens_are_of_the_pair(front, token0, token1);
        assert(entries[entries.len() - 1] == entries.last());
        assert forall|id: PoolId| #[trigger] all.contains(id) <==> exists|i: int|
            0 <= i < entries.len() && (#[trigger] entries[i]).0 == id && has_tokens(
                entries[i].1,
                token0,
                token1,
            ) by {
            if all.contains(id) {
                let k = choose|k: int| 0 <= k < all.len() && all[k] == id;
                if k < found.len() {
                    assert(found[k] == id);
                    assert(found.contains(id));
                    let i = choose|i: int|
                        0 <= i < front.len() && (#[trigger] front[i]).0 == id && has_tokens(
                            front[i].1,
                            token0,
                            token1,
                        );
                    assert(entries[i] == front[i]);
                }
            }
            if exists|i: int|
                0 <= i < entries.len() && (#[trigger] entries[i]).0 == id && has_tokens(
                    entries[i].1,
                    token0,
                    token1,
                ) {
                let i = choose|i: int|
                    0 <= i < entries.len() && (#[trigger] entries[i]).0 == id && has_tokens(
                        entries[i].1,
                        token0,
                        token1,
                    );
                if i < front.len() {
                    assert(front[i].0 == id);
                    assert(found.contains(id));
                    let k = choose|k: int| 0 <= k < found.len() && found[k] == id;
                    assert(all[k] == id);
                } else {
                    assert(all[all.len() - 1] == id);
                }
            }
        }
    }
}

/// Whether a pool trades two tokens for each other, whichever is named first: its
/// currencies are the two, in the order of their addresses.
pub open spec fn trades(key: PoolKey, a: Address, b: Address) -> bool {
    &&& (key.currency0 == a && key.currency1 == b) || (key.currency0 == b && key.currency1 == a)
    &&& key.currency0@ <= key.currency1@
}

/// The pools that are found for two tokens are exactly those that trade them for
/// each other, each as often as it is known and in the order in which the pools
/// came; under their identifiers and by their keys.
#[verifier::spinoff_prover]
pub proof fn pools_of_a_pair_trade_it(entries: Seq<(PoolId, PoolKey)>, a: Address, b: Address)
    ensures
        ids_with_tokens(entries, a, b) == entries.filter(
            |e: (PoolId, PoolKey)| trades(e.1, a, b),
        ).map_values(|e: (PoolId, PoolKey)| e.0),
        keys_with_tokens(entries, a, b) == entries.filter(
            |e: (PoolId, PoolKey)| trades(e.1, a, b),
        ).map_values(|e: (PoolId, PoolKey)| e.1),
        forall|key: PoolKey| #[trigger] has_tokens(key, a, b) == trades(key, a, b),
    decreases entries.len(),
{
    reveal(Seq::filter);
    if a@ == b@ {
        address_view_injective(a, b);
    }
    let of_pair = |e: (PoolId, PoolKey)| trades(e.1, a, b);
    assert forall|key: PoolKey| #[trigger] has_tokens(key, a, b) == trades(key, a, b) by {
        if key.currency0@ == key.currency1@ {
            address_view_injective(key.currency0, key.currency1);
        }
    }
    if entries.len() != 0 {
        let front = entries.drop_last();
        pools_of_a_pair_trade_it(front, a, b);
        let rest = front.filter(of_pair);
        let last = entries.last();
        if trades(last.1, a, b) {
            assert(entries.filter(of_pair) == rest.push(last));
            assert(rest.push(last).map_values(|e: (PoolId, PoolKey)| e.0) =~= rest.map_values(
                |e: (PoolId, PoolKey)| e.0,
            ).push(last.0));
            assert(rest.push(last).map_values(|e: (PoolId, PoolKey)| e.1) =~= rest.map_values(
                |e: (PoolId, PoolKey)| e.1,
            ).push(last.1));
        } else {
            assert(entries.filter(of_pair) == rest);
        }
    }
    assert(ids_with_tokens(entries, a, b) =~= entries.filter(of_pair).map_values(
        |e: (PoolId, PoolKey)| e.0,
    ));
    assert(keys_with_tokens(entries, a, b) =~= entries.filter(of_pair).map_values(
        |e: (PoolId, PoolKey)| e.1,
    ));
}

/// Adding a pool leaves every other pool as it was, and so does taking one out.
/// A pool that was taken out is not known any more, by its public identifier or as
/// what its identifier on chain leads to. Adding a pool that is new to a consistent
/// registry and taking it out again changes nothing.
pub proof fn other_pools_stay(registry: RegistryView, key: PoolKey, id: PoolId, other: PoolId)
    ensures
        ({
            let added = with_pool(registry, key);
            let removed = without_pool(registry, id);
            &&& other != pool_id_of(key) ==> {
                &&& added.pools.contains_key(other) == registry.pools.contains_key(other)
                &&& registry.pools.contains_key(other) ==> added.pools[other]
                    == registry.pools[other]
                &&& added.conversion_map.contains_key(other)
                    == registry.conversion_map.contains_key(other)
                &&& registry.conversion_map.contains_key(other) ==> added.conversion_map[other]
                    == registry.conversion_map[other]
            }
            &&& other != pool_id_of(private_key_of(key)) ==> {
                &&& added.reverse_conversion_map.contains_key(other)
                    == registry.reverse_conversion_map.contains_key(other)
                &&& registry.reverse_conversion_map.contains_key(other)
                    ==> added.reverse_conversion_map[other]
                    == registry.reverse_conversion_map[other]
            }
            &&& other != id ==> {
                &&& removed.pools.contains_key(other) == registry.pools.contains_key(other)
                &&& registry.pools.contains_key(other) ==> removed.pools[other]
                    == registry.pools[other]
                &&& removed.conversion_map.contains_key(other)
                    == registry.conversion_map.contains_key(other)
                &&& registry.conversion_map.contains_key(other) ==> removed.conversion_map[other]
                    == registry.conversion_map[other]
            }
            &&& registry.reverse_conversion_map.contains_key(other)
                && registry.reverse_conversion_map[other] != id ==> {
                &&& removed.reverse_conversion_map.contains_key(other)
                &&& removed.reverse_conversion_map[other] == registry.reverse_conversion_map[other]
            }
            &&& !removed.pools.contains_key(id)
            &&& !removed.conversion_map.contains_key(id)
            &&& is_consistent(registry) && removed.reverse_conversion_map.contains_key(other)
                ==> removed.reverse_conversion_map[other] != id
            &&& is_consistent(registry) && !registry.pools.contains_key(pool_id_of(key))
                && !registry.reverse_conversion_map.contains_key(pool_id_of(private_key_of(key)))
                ==> without_pool(added, pool_id_of(key)) == registry
        }),
{
    let added = with_pool(registry, key);
    let back = without_pool(added, pool_id_of(key));
    if is_consistent(registry) && !registry.pools.contains_key(pool_id_of(key))
        && !registry.reverse_conversion_map.contains_key(pool_id_of(private_key_of(key))) {
        assert(!registry.conversion_map.dom().contains(pool_id_of(key)));
        assert(back.pools =~= registry.pools);
        assert(back.conversion_map =~= registry.conversion_map);
        assert(back.reverse_conversion_map =~= registry.reverse_conversion_map);
    }
}

/// In a consistent registry the identifier that a pool goes by on chain leads to
/// its public one; a public one that is nobody's identifier on chain, and one that
/// is not known at all, stay as they are.
pub proof fn public_id_of_a_pool(registry: RegistryView, id: PoolId)
    requires
        is_consistent(registry),
    ensures
        registry.pools.contains_key(id) ==> public_id(
            registry,
            pool_id_of(private_key_of(registry.pools[id])),
        ) == id,
        !is_private_id(registry, id) ==> public_id(registry, id) == id,
{
    if registry.pools.contains_key(id) {
        assert(registry.conversion_map.dom().contains(id));
    }
}

impl UniswapPoolRegistry {
    /// A registry that has no pool.
    pub fn new() -> (r: UniswapPoolRegistry)
        ensures
            r@ == empty_registry(),
    {
        UniswapPoolRegistry {
            pools: PoolIdMap::new(),
            conversion_map: PoolIdMap::new(),
            reverse_conversion_map: PoolIdMap::new(),
        }
    }

    /// The key of a pool.
    pub fn get(&self, pool_id: &PoolId) -> (r: Option<&PoolKey>)
        ensures
            r is Some <==> self@.pools.contains_key(*pool_id),
            r matches Some(key) ==> *key == self@.pools[*pool_id],
    {
        self.pools.get(pool_id)
    }

    /// All keys by their public identifiers.
    pub fn pools(&self) -> (r: PoolIdMap<PoolKey>)
        ensures
            r@ == self@.pools,
    {
        self.pools.clone()
    }

    /// The private identifiers, one for each public one.
    pub fn private_keys(&self) -> (r: Vec<PoolId>)
        ensures
            r@ == Seq::new(
                self.conversion_map.order().len(),
                |i: int| self.conversion_map.order()[i].1,
            ),
            forall|id: PoolId| #[trigger] r@.contains(id) <==> is_private_id(self@, id),
    {
        let mut out: Vec<PoolId> = Vec::new();
        let n: usize = self.conversion_map.len();
        let mut i: usize = 0;
        while i < n
            invariant
                i <= n,
                n == self.conversion_map.order().len(),
                out@ == Seq::new(i as nat, |j: int| self.conversion_map.order()[j].1),
            decreases n - i,
        {
            let entry: (PoolId, &PoolId) = self.conversion_map.entry(i);
            out.push(*entry.1);
            i = i + 1;
            assert(out@ =~= Seq::new(i as nat, |j: int| self.conversion_map.order()[j].1));
        }
        proof {
            let order = self.conversion_map.order();
            assert forall|id: PoolId| #[trigger] out@.contains(id) <==> is_private_id(self@, id) by {
                if out@.contains(id) {
                    let k = choose|k: int| 0 <= k < out@.len() && out@[k] == id;
                    map_of_entry(order, k);
                    assert(self@.conversion_map.contains_key(order[k].0));
                }
                if is_private_id(self@, id) {
                    let public = choose|public: PoolId| #[trigger]
                        self@.conversion_map.contains_key(public) && self@.conversion_map[public]
                            == id;
                    let k = key_index(order, public);
                    assert(out@[k] == id);
                }
            }
        }
        out
    }

    /// The public identifiers.
    pub fn public_keys(&self) -> (r: Vec<PoolId>)
        ensures
            r@.no_duplicates(),
            r@.to_set() == self@.conversion_map.dom(),
    {
        self.conversion_map.keys()
    }

    /// The public identifier of a private one.
    pub fn public_key_from_private(&self, pk: &PoolId) -> (r: Option<PoolId>)
        ensures
            r is Some <==> self@.reverse_conversion_map.contains_key(*pk),
            r matches Some(id) ==> id == self@.reverse_conversion_map[*pk],
    {
        match self.reverse_conversion_map.get(pk) {
            Some(id) => Some(*id),
            None => None,
        }
    }

    /// The private identifier of a public one.
    pub fn private_key_from_public(&self, pk: &PoolId) -> (r: Option<PoolId>)
        ensures
            r is Some <==> self@.conversion_map.contains_key(*pk),
            r matches Some(id) ==> id == self@.conversion_map[*pk],
    {
        match self.conversion_map.get(pk) {
            Some(id) => Some(*id),
            None => None,
        }
    }

    /// Adds a pool.
    pub fn add_new_pool(&mut self, pool_key: PoolKey)
        ensures
            final(self)@ == with_pool(old(self)@, pool_key),
    {
        let public: PoolId = PoolId::from(pool_key);
        let private: PoolId = PoolId::from(pool_key.with_dynamic_fee());
        self.pools.insert(public, pool_key);
        self.conversion_map.insert(public, private);
        self.reverse_conversion_map.insert(private, public);
    }

    /// Get pool key by token pair (searches all pools with these tokens)
    /// Returns all pools that match the token pair, regardless of fee tier
    pub fn get_pools_by_token_pair(&self, token0: Address, token1: Address) -> (r: Vec<PoolKey>)
        ensures
            r@ == keys_with_tokens(self.pools.order(), token0, token1),
            forall|key: PoolKey| #[trigger]
                r@.contains(key) <==> has_tokens(key, token0, token1) && is_known_key(self@, key),
    {
        let pair: (Address, Address) = sort_pair(token0, token1);
        let mut out: Vec<PoolKey> = Vec::new();
        let n: usize = self.pools.len();
        let ghost order = self.pools.order();
        let mut i: usize = 0;
        while i < n
            invariant
                i <= n,
                n == order.len(),
                order == self.pools.order(),
                pair == sorted_pair(token0, token1),
                out@ == keys_with_tokens(order.take(i as int), token0, token1),
            decreases n - i,
        {
            let entry: (PoolId, &PoolKey) = self.pools.entry(i);
            assert(order.take(i + 1).drop_last() =~= order.take(i as int));
            if entry.1.currency0 == pair.0 && entry.1.currency1 == pair.1 {
                out.push(*entry.1);
            }
            i = i + 1;
        }
        proof {
            assert(order.take(n as int) =~= order);
            assert forall|key: PoolKey| #[trigger]
                out@.contains(key) <==> has_tokens(key, token0, token1) && is_known_key(
                    self@,
                    key,
                ) by {
                keys_with_tokens_contains(order, token0, token1, key);
                if exists|i: int| 0 <= i < order.len() && (#[trigger] order[i]).1 == key {
                    let i = choose|i: int| 0 <= i < order.len() && (#[trigger] order[i]).1 == key;
                    map_of_entry(order, i);
                    assert(self@.pools.contains_key(order[i].0));
                }
                if is_known_key(self@, key) {
                    let id = choose|id: PoolId| #[trigger]
                        self@.pools.contains_key(id) && self@.pools[id] == key;
                    let k = key_index(order, id);
                    assert(order[k].1 == key);
                }
            }
        }
        out
    }

    /// The identifiers under which the pools of a token pair are registered.
    pub fn get_pool_ids_by_token_pair(&self, token0: Address, token1: Address) -> (r: Vec<PoolId>)
        ensures
            r@ == ids_with_tokens(self.pools.order(), token0, token1),
            forall|id: PoolId| #[trigger]
                r@.contains(id) <==> self@.pools.contains_key(id) && has_tokens(
                    self@.pools[id],
                    token0,
                    token1,
                ),
    {
        let pair: (Address, Address) = sort_pair(token0, token1);
        let mut out: Vec<PoolId> = Vec::new();
        let n: usize = self.pools.len();
        let ghost order = self.pools.order();
        let mut i: usize = 0;
        while i < n
            invariant
                i <= n,
                n == order.len(),
                order == self.pools.order(),
                pair == sorted_pair(token0, token1),
                out@ == ids_with_tokens(order.take(i as int), token0, token1),
            decreases n - i,
        {
            let entry: (PoolId, &PoolKey) = self.pools.entry(i);
            assert(order.take(i + 1).drop_last() =~= order.take(i as int));
            if entry.1.currency0 == pair.0 && entry.1.currency1 == pair.1 {
                out.push(entry.0);
            }
            i = i + 1;
        }
        proof {
            assert(order.take(n as int) =~= order);
            ids_with_tokens_are_of_the_pair(order, token0, token1);
            assert forall|id: PoolId| #[trigger]
                out@.contains(id) <==> self@.pools.contains_key(id) && has_tokens(
                    self@.pools[id],
                    token0,
                    token1,
                ) by {
                if out@.contains(id) {
                    let k = choose|k: int|
                        0 <= k < order.len() && (#[trigger] order[k]).0 == id && has_tokens(
                            order[k].1,
                            token0,
                            token1,
                        );
                    map_of_entry(order, k);
                }
                if self@.pools.contains_key(id) {
                    let k = key_index(order, id);
                    assert(order[k].0 == id);
                    map_of_entry(order, k);
                }
            }
        }
        out
    }

    /// Takes a pool out, if it is there.
    pub fn remove(&mut self, pool_id: &PoolId)
        ensures
            final(self)@ == without_pool(old(self)@, *pool_id),
    {
        let _ = self.pools.remove(pool_id);
        if let Some(private) = self.conversion_map.remove(pool_id) {
            let leads_back: bool = match self.reverse_conversion_map.get(&private) {
                Some(public) => *public == *pool_id,
                None => false,
            };
            if leads_back {
                let _ = self.reverse_conversion_map.remove(&private);
            }
        }
    }

    /// The public identifier of a pool that may be given by the identifier that
    /// it goes by on chain.
    pub fn to_public(&self, id: &PoolId) -> (r: PoolId)
        ensures
            r == public_id(self@, *id),
    {
        match self.reverse_conversion_map.get(id) {
            Some(public) => *public,
            None => *id,
        }
    }

    /// Get pool ID by token pair and fee
    /// Returns the pool ID if a pool exists with the given tokens and fee
    pub fn get_pool_id_by_tokens_and_fee(&self, token0: Address, token1: Address, fee: u32) -> (r:
        Option<PoolId>)
        ensures
            r is None <==> forall|id: PoolId| #[trigger]
                self@.pools.contains_key(id) ==> !(has_tokens(self@.pools[id], token0, token1)
                    && self@.pools[id].fee == fee),
            r matches Some(id) ==> self@.pools.contains_key(id) && has_tokens(
                self@.pools[id],
                token0,
                token1,
            ) && self@.pools[id].fee == fee,
    {
        let pair: (Address, Address) = sort_pair(token0, token1);
        let n: usize = self.pools.len();
        let ghost order = self.pools.order();
        let mut i: usize = 0;
        while i < n
            invariant
                i <= n,
                n == order.len(),
                order == self.pools.order(),
                self@.pools == map_of(order),
                distinct_keys(order),
                pair == sorted_pair(token0, token1),
                forall|j: int|
                    0 <= j < i ==> !(has_tokens((#[trigger] order[j]).1, token0, token1)
                        && order[j].1.fee == fee),
            decreases n - i,
        {
            let entry: (PoolId, &PoolKey) = self.pools.entry(i);
            if entry.1.currency0 == pair.0 && entry.1.currency1 == pair.1 && entry.1.fee == fee {
                proof {
                    map_of_entry(order, i as int);
                }
                return Some(entry.0);
            }
            i = i + 1;
        }
        proof {
            assert forall|id: PoolId| #[trigger] self@.pools.contains_key(id) implies !(has_tokens(
                self@.pools[id],
                token0,
                token1,
            ) && self@.pools[id].fee == fee) by {
                assert(has_key(order, id));
                let k = key_index(order, id);
                assert(order[k].0 == id);
            }
        }
        None
    }
}

/// What [`keys_with_tokens`] holds.
proof fn keys_with_tokens_contains(
    entries: Seq<(PoolId, PoolKey)>,
    token0: Address,
    token1: Address,
    key: PoolKey,
)
    ensures
        keys_with_tokens(entries, token0, token1).contains(key) <==> has_tokens(
            key,
            token0,
            token1,
        ) && exists|i: int| 0 <= i < entries.len() && (#[trigger] entries[i]).1 == key,
    decreases entries.len(),
{
    if entries.len() != 0 {
        let front = entries.drop_last();
        let found = keys_with_tokens(front, token0, token1);
        keys_with_tokens_contains(front, token0, token1, key);
        if exists|i: int| 0 <= i < front.len() && (#[trigger] front[i]).1 == key {
            let i = choose|i: int| 0 <= i < front.len() && (#[trigger] front[i]).1 == key;
            assert(entries[i].1 == key);
        }
        if exists|i: int| 0 <= i < entries.len() && (#[trigger] entries[i]).1 == key {
            let i = choose|i: int| 0 <= i < entries.len() && (#[trigger] entries[i]).1 == key;
            if i < front.len() {
                assert(front[i].1 == key);
            }
        }
        if has_tokens(entries.last().1, token0, token1) {
            let all = found.push(entries.last().1);
            assert(all[found.len() as int] == entries.last().1);
            if found.contains(key) {
                let k = choose|k: int| 0 <= k < found.len() && found[k] == key;
                assert(all[k] == key);
            }
            if all.contains(key) && key != entries.last().1 {
                let k = choose|k: int| 0 <= k < all.len() && all[k] == key;
                assert(found[k] == key);
            }
            assert(entries[entries.len() - 1].1 == entries.last().1);
        }
    }
}

impl From<Vec<PoolKey>> for UniswapPoolRegistry {
    fn from(pools: Vec<PoolKey>) -> (r: UniswapPoolRegistry)
        ensures
            r@ == with_pools(empty_registry(), pools@),
    {
        let mut registry: UniswapPoolRegistry = UniswapPoolRegistry::new();
        let mut i: usize = 0;
        while i < pools.len()
            invariant
                i <= pools.len(),
                registry@ == with_pools(empty_registry(), pools@.take(i as int)),
            decreases pools.len() - i,
        {
            assert(pools@.take(i + 1).drop_last() =~= pools@.take(i as int));
            registry.add_new_pool(pools[i]);
            i = i + 1;
        }
        assert(pools@.take(i as int) =~= pools@);
        registry
    }
}

impl vstd::std_specs::convert::FromSpecImpl<Vec<PoolKey>> for UniswapPoolRegistry {
    open spec fn obeys_from_spec() -> bool {
        false
    }

    open spec fn from_spec(pools: Vec<PoolKey>) -> UniswapPoolRegistry {
        choose|r: UniswapPoolRegistry| r@ == with_pools(empty_registry(), pools@)
    }
}

} // verus!
