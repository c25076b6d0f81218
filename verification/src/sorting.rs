//! The order in which the updates of a block are applied.
use vstd::prelude::*;

use crate::updates::{key_before, same_updates, sort_key, PoolUpdate};

verus! {

/// The updates with one more put behind all that do not come after it.
pub open spec fn insert_sorted(updates: Seq<PoolUpdate>, update: PoolUpdate) -> Seq<PoolUpdate>
    decreases updates.len(),
{
    if updates.len() == 0 || !key_before(sort_key(update), sort_key(updates.last())) {
        updates.push(update)
    } else {
        insert_sorted(updates.drop_last(), update).push(updates.last())
    }
}

/// The updates in ascending order of their position, with those of the same
/// position in the order in which they came.
pub open spec fn stable_sort(updates: Seq<PoolUpdate>) -> Seq<PoolUpdate>
    decreases updates.len(),
{
    if updates.len() == 0 {
        updates
    } else {
        insert_sorted(stable_sort(updates.drop_last()), updates.last())
    }
}

/// Whether updates stand in ascending order of their position.
pub open spec fn is_sorted(updates: Seq<PoolUpdate>) -> bool {
    forall|i: int, j: int|
        0 <= i < j < updates.len() ==> !key_before(
            sort_key(#[trigger] updates[j]),
            sort_key(#[trigger] updates[i]),
        )
}

/// The updates that stand at one position, in their order.
pub open spec fn at_position(updates: Seq<PoolUpdate>, key: (u64, u64)) -> Seq<PoolUpdate>
    decreases updates.len(),
{
    if updates.len() == 0 {
        updates
    } else if sort_key(updates.last()) == key {
        at_position(updates.drop_last(), key).push(updates.last())
    } else {
        at_position(updates.drop_last(), key)
    }
}

proof fn insert_sorted_contains(updates: Seq<PoolUpdate>, update: PoolUpdate)
    ensures
        insert_sorted(updates, update).len() == updates.len() + 1,
        insert_sorted(updates, update).to_multiset() == updates.to_multiset().insert(update),
    decreases updates.len(),
{
    broadcast use vstd::seq_lib::group_to_multiset_ensures;

    if updates.len() != 0 && key_before(sort_key(update), sort_key(updates.last())) {
        insert_sorted_contains(updates.drop_last(), update);
        assert(updates =~= updates.drop_last().push(updates.last()));
        assert(insert_sorted(updates, update).to_multiset() =~= updates.to_multiset().insert(
            update,
        ));
    }
}

proof fn insert_sorted_keeps_order(updates: Seq<PoolUpdate>, update: PoolUpdate)
    requires
        is_sorted(updates),
    ensures
        is_sorted(insert_sorted(updates, update)),
        forall|i: int|
            0 <= i < insert_sorted(updates, update).len() ==> #[trigger] insert_sorted(
                updates,
                update,
            )[i] == update || updates.contains(insert_sorted(updates, update)[i]),
        insert_sorted(updates, update).len() == updates.len() + 1,
    decreases updates.len(),
{
    let r = insert_sorted(updates, update);
    if updates.len() == 0 || !key_before(sort_key(update), sort_key(updates.last())) {
        assert forall|i: int| 0 <= i < r.len() implies #[trigger] r[i] == update
            || updates.contains(r[i]) by {
            if i < updates.len() {
                assert(updates.contains(updates[i]));
            }
        }
    } else {
        let front = updates.drop_last();
        insert_sorted_keeps_order(front, update);
        let inner = insert_sorted(front, update);
        assert forall|i: int| 0 <= i < r.len() implies #[trigger] r[i] == update
            || updates.contains(r[i]) by {
            if i < inner.len() {
                assert(r[i] == inner[i]);
                if inner[i] != update {
                    let k = choose|k: int| 0 <= k < front.len() && front[k] == inner[i];
                    assert(updates[k] == inner[i]);
                }
            } else {
                assert(updates.contains(updates.last()));
            }
        }
        assert forall|i: int, j: int| 0 <= i < j < r.len() implies !key_before(
            sort_key(#[trigger] r[j]),
            sort_key(#[trigger] r[i]),
        ) by {
            if j == r.len() - 1 {
                assert(r[i] == inner[i]);
                if inner[i] != update {
                    let k = choose|k: int| 0 <= k < front.len() && front[k] == inner[i];
                    assert(updates[k] == inner[i]);
                }
            } else {
                assert(r[i] == inner[i] && r[j] == inner[j]);
            }
        }
    }
}

/// Sorting puts updates in ascending order of their position.
pub proof fn stable_sort_sorts(updates: Seq<PoolUpdate>)
    ensures
        is_sorted(stable_sort(updates)),
    decreases updates.len(),
{
    if updates.len() != 0 {
        stable_sort_sorts(updates.drop_last());
        insert_sorted_keeps_order(stable_sort(updates.drop_last()), updates.last());
    }
}

/// Sorting neither loses nor makes up an update.
pub proof fn stable_sort_permutes(updates: Seq<PoolUpdate>)
    ensures
        stable_sort(updates).to_multiset() == updates.to_multiset(),
        stable_sort(updates).len() == updates.len(),
    decreases updates.len(),
{
    broadcast use vstd::seq_lib::group_to_multiset_ensures;

    if updates.len() != 0 {
        stable_sort_permutes(updates.drop_last());
        insert_sorted_contains(stable_sort(updates.drop_last()), updates.last());
        assert(updates =~= updates.drop_last().push(updates.last()));
    }
}

proof fn insert_sorted_is_stable(updates: Seq<PoolUpdate>, update: PoolUpdate, key: (u64, u64))
    ensures
        at_position(insert_sorted(updates, update), key) == at_position(updates.push(update), key),
    decreases updates.len(),
{
    reveal_with_fuel(at_position, 3);
    assert(updates.push(update).drop_last() =~= updates);
    if updates.len() != 0 && key_before(sort_key(update), sort_key(updates.last())) {
        let front = updates.drop_last();
        insert_sorted_is_stable(front, update, key);
        assert(front.push(update).drop_last() =~= front);
        assert(insert_sorted(front, update).push(updates.last()).drop_last() =~= insert_sorted(
            front,
            update,
        ));
    }
}

/// Sorting keeps updates of the same position in the order in which they came.
pub proof fn stable_sort_is_stable(updates: Seq<PoolUpdate>, key: (u64, u64))
    ensures
        at_position(stable_sort(updates), key) == at_position(updates, key),
    decreases updates.len(),
{
    if updates.len() != 0 {
        let front = updates.drop_last();
        let sorted = stable_sort(front);
        stable_sort_is_stable(front, key);
        insert_sorted_is_stable(sorted, updates.last(), key);
        assert(sorted.push(updates.last()).drop_last() =~= sorted);
    }
}

/// Whether an update is of a log that stands at an index of its block, in a
/// transaction at an index.
pub open spec fn stands_at(update: PoolUpdate, tx: u64, log: u64) -> bool {
    match update {
        PoolUpdate::SwapEvent { tx_index, log_index, .. } => tx_index == tx && log_index == log,
        PoolUpdate::LiquidityEvent { tx_index, log_index, .. } => tx_index == tx && log_index
            == log,
        _ => false,
    }
}

/// Whether an update is of a swap log or of a liquidity log.
pub open spec fn is_of_log(update: PoolUpdate) -> bool {
    update is SwapEvent || update is LiquidityEvent
}

/// Sorted updates stand in the order of the chain: logs by their transaction and
/// within it by their index, and before everything that is of no log, unless a log
/// has the last place that there is. What is of no log keeps the order in which it
/// came.
pub proof fn sorted_updates_follow_the_chain(updates: Seq<PoolUpdate>)
    ensures
        ({
            let sorted = stable_sort(updates);
            &&& forall|i: int, j: int, t: u64, l: u64, u: u64, m: u64|
                0 <= i < j < sorted.len() && #[trigger] stands_at(sorted[i], t, l)
                    && #[trigger] stands_at(sorted[j], u, m) ==> t < u || (t == u && l <= m)
            &&& forall|i: int, j: int, u: u64, m: u64|
                0 <= i < j < sorted.len() && !is_of_log(#[trigger] sorted[i])
                    && #[trigger] stands_at(sorted[j], u, m) ==> u == u64::MAX && m == u64::MAX
            &&& sorted.filter(|x: PoolUpdate| !is_of_log(x)) == updates.filter(
                |x: PoolUpdate| !is_of_log(x),
            )
        }),
    decreases updates.len(),
{
    let sorted = stable_sort(updates);
    stable_sort_sorts(updates);
    assert forall|i: int, j: int, t: u64, l: u64, u: u64, m: u64|
        0 <= i < j < sorted.len() && #[trigger] stands_at(sorted[i], t, l) && #[trigger] stands_at(
            sorted[j],
            u,
            m,
        ) implies t < u || (t == u && l <= m) by {
        assert(!key_before(sort_key(sorted[j]), sort_key(sorted[i])));
    }
    assert forall|i: int, j: int, u: u64, m: u64|
        0 <= i < j < sorted.len() && !is_of_log(#[trigger] sorted[i]) && #[trigger] stands_at(
            sorted[j],
            u,
            m,
        ) implies u == u64::MAX && m == u64::MAX by {
        assert(!key_before(sort_key(sorted[j]), sort_key(sorted[i])));
    }
    if updates.len() != 0 {
        sorted_updates_follow_the_chain(updates.drop_last());
        insert_keeps_the_rest(stable_sort(updates.drop_last()), updates.last());
        reveal(Seq::filter);
        let front = updates.drop_last();
        assert(stable_sort(front).push(updates.last()).drop_last() =~= stable_sort(front));
    }
}

/// Putting an update among others keeps the order of what is of no log.
proof fn insert_keeps_the_rest(updates: Seq<PoolUpdate>, update: PoolUpdate)
    ensures
        insert_sorted(updates, update).filter(|x: PoolUpdate| !is_of_log(x)) == updates.push(
            update,
        ).filter(|x: PoolUpdate| !is_of_log(x)),
    decreases updates.len(),
{
    if updates.len() != 0 && key_before(sort_key(update), sort_key(updates.last())) {
        let p = |x: PoolUpdate| !is_of_log(x);
        let front = updates.drop_last();
        let last = updates.last();
        let inner = insert_sorted(front, update);
        insert_keeps_the_rest(front, update);
        reveal(Seq::filter);
        assert(is_of_log(update));
        assert(updates.push(update).drop_last() =~= updates);
        assert(front.push(update).drop_last() =~= front);
        assert(inner.push(last).drop_last() =~= inner);
        assert(inner.push(last).last() == last);
        assert(front.push(update).last() == update && updates.push(update).last() == update);
        assert(front.push(update).filter(p) == front.filter(p));
        assert(updates.push(update).filter(p) == updates.filter(p));
        assert(updates.filter(p) == if p(last) {
            front.filter(p).push(last)
        } else {
            front.filter(p)
        });
        assert(inner.push(last).filter(p) == if p(last) {
            inner.filter(p).push(last)
        } else {
            inner.filter(p)
        });
    }
}

proof fn insert_sorted_at(updates: Seq<PoolUpdate>, update: PoolUpdate, at: int)
    requires
        0 <= at <= updates.len(),
        forall|i: int|
            at <= i < updates.len() ==> key_before(sort_key(update), sort_key(#[trigger] updates[i])),
        at > 0 ==> !key_before(sort_key(update), sort_key(updates[at - 1])),
    ensures
        insert_sorted(updates, update) == updates.insert(at, update),
    decreases updates.len(),
{
    if at == updates.len() {
        assert(updates.insert(at, update) =~= updates.push(update));
    } else {
        let front = updates.drop_last();
        insert_sorted_at(front, update, at);
        assert(updates.insert(at, update) =~= front.insert(at, update).push(updates.last()));
    }
}

/// Whether one position comes before another.
fn comes_before(a: (u64, u64), b: (u64, u64)) -> (r: bool)
    ensures
        r == key_before(a, b),
{
    a.0 < b.0 || (a.0 == b.0 && a.1 < b.1)
}

/// Sorts updates in ascending order of their position, and keeps those of the
/// same position in the order in which they came.
pub fn sort_updates(updates: Vec<PoolUpdate>) -> (r: Vec<PoolUpdate>)
    ensures
        r@ == stable_sort(updates@),
{
    let mut rest: Vec<PoolUpdate> = updates;
    let mut sorted: Vec<PoolUpdate> = Vec::new();
    assert(updates@.take(0) =~= Seq::<PoolUpdate>::empty());
    while rest.len() > 0
        invariant
            rest.len() <= updates@.len(),
            rest@ == updates@.skip(updates@.len() - rest@.len()),
            sorted@ == stable_sort(updates@.take(updates@.len() - rest@.len())),
        decreases rest.len(),
    {
        let ghost done = updates@.len() - rest@.len();
        let update: PoolUpdate = rest.remove(0);
        let key: (u64, u64) = update.position();
        let mut at: usize = sorted.len();
        while at > 0 && comes_before(key, sorted[at - 1].position())
            invariant
                at <= sorted.len(),
                key == sort_key(update),
                forall|i: int|
                    at <= i < sorted.len() ==> key_before(key, sort_key(#[trigger] sorted@[i])),
            decreases at,
        {
            at = at - 1;
        }
        proof {
            insert_sorted_at(sorted@, update, at as int);
            assert(updates@.take(done + 1).drop_last() =~= updates@.take(done));
            assert(updates@.take(done + 1).last() == update);
            assert(rest@ =~= updates@.skip(done + 1));
        }
        sorted.insert(at, update);
    }
    assert(updates@.take(updates@.len() as int) =~= updates@);
    sorted
}

proof fn insert_sorted_of_copies(
    a: Seq<PoolUpdate>,
    b: Seq<PoolUpdate>,
    x: PoolUpdate,
    y: PoolUpdate,
)
    requires
        same_updates(a, b),
        same_updates(seq![x], seq![y]),
    ensures
        same_updates(insert_sorted(a, x), insert_sorted(b, y)),
    decreases a.len(),
{
    assert(seq![x][0] == x && seq![y][0] == y);
    if a.len() != 0 {
        let i = a.len() - 1;
        assert(a[i] == a.last() && b[i] == b.last());
        if key_before(sort_key(x), sort_key(a.last())) {
            insert_sorted_of_copies(a.drop_last(), b.drop_last(), x, y);
        }
    }
}

/// Copies of updates sort as the updates do.
pub proof fn stable_sort_of_copies(a: Seq<PoolUpdate>, b: Seq<PoolUpdate>)
    requires
        same_updates(a, b),
    ensures
        same_updates(stable_sort(a), stable_sort(b)),
    decreases a.len(),
{
    if a.len() != 0 {
        stable_sort_of_copies(a.drop_last(), b.drop_last());
        assert(a[a.len() - 1] == a.last() && b[b.len() - 1] == b.last());
        insert_sorted_of_copies(
            stable_sort(a.drop_last()),
            stable_sort(b.drop_last()),
            a.last(),
            b.last(),
        );
    }
}

} // verus!
