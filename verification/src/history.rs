//! What the history of a provider holds after it followed blocks.
use vstd::prelude::*;

use crate::agreement::changes_of;
use crate::batch_effect::{
    events_of, events_of_concat, events_on_chain, is_followed, liquidity_of_logs, ChainBlock,
};
use crate::events::Log;
use crate::pool_registry::RegistryView;
use crate::pool_update_provider::{
    all_liquidity_updates, all_swap_updates, history_after_logs, history_cutoff,
    liquidity_update_of, liquidity_updates, since_block, stored_event_of, swap_updates,
    ProviderView, StoredEvent,
};
use crate::reorg::updates_of;
use crate::sorting::{stable_sort, stable_sort_permutes};
use crate::updates::PoolUpdate;
use crate::words::PoolId;

verus! {

/// A provider after a block of which everything could be fetched, as far as its
/// history and its block go.
pub open spec fn provider_step(provider: ProviderView, block: ChainBlock) -> ProviderView {
    ProviderView {
        history: since_block(
            history_after_logs(
                provider.history,
                provider.watched,
                block.modify_logs,
                block.number,
                provider.current_block,
            ),
            history_cutoff(block.number),
        ),
        current_block: block.number,
        ..provider
    }
}

/// A provider after blocks in turn.
pub open spec fn provider_after(provider: ProviderView, blocks: Seq<ChainBlock>) -> ProviderView
    decreases blocks.len(),
{
    if blocks.len() == 0 {
        provider
    } else {
        provider_step(provider_after(provider, blocks.drop_last()), blocks.last())
    }
}

/// Whether blocks come one after the other, all after a given one.
pub open spec fn come_after(block: u64, blocks: Seq<ChainBlock>) -> bool
    decreases blocks.len(),
{
    blocks.len() == 0 || {
        &&& come_after(block, blocks.drop_last())
        &&& last_number(block, blocks.drop_last()) < blocks.last().number
    }
}

/// The number of the last of some blocks, or else the given one.
pub open spec fn last_number(block: u64, blocks: Seq<ChainBlock>) -> u64 {
    if blocks.len() == 0 {
        block
    } else {
        blocks.last().number
    }
}

/// The events of a pool in blocks from a number on, in the order of the chain.
pub open spec fn events_since(blocks: Seq<ChainBlock>, from: u64, id: PoolId) -> Seq<PoolUpdate>
    decreases blocks.len(),
{
    if blocks.len() == 0 {
        Seq::empty()
    } else {
        let front = events_since(blocks.drop_last(), from, id);
        if blocks.last().number >= from {
            front + events_on_chain(blocks.last(), id)
        } else {
            front
        }
    }
}

/// The events that a provider stores of the liquidity logs of a block.
spec fn stored_of(watched: Set<PoolId>, logs: Seq<Log>, block: u64) -> Seq<StoredEvent>
    decreases logs.len(),
{
    if logs.len() == 0 {
        Seq::empty()
    } else {
        let front = stored_of(watched, logs.drop_last(), block);
        match stored_event_of(watched, logs.last(), block) {
            Some(event) => front.push(event),
            None => front,
        }
    }
}

/// The events that a provider stores of blocks.
spec fn stored_of_blocks(watched: Set<PoolId>, blocks: Seq<ChainBlock>) -> Seq<StoredEvent>
    decreases blocks.len(),
{
    if blocks.len() == 0 {
        Seq::empty()
    } else {
        stored_of_blocks(watched, blocks.drop_last()) + stored_of(
            watched,
            blocks.last().modify_logs,
            blocks.last().number,
        )
    }
}

proof fn since_concat(a: Seq<StoredEvent>, b: Seq<StoredEvent>, block: u64)
    ensures
        since_block(a + b, block) == since_block(a, block) + since_block(b, block),
    decreases b.len(),
{
    if b.len() == 0 {
        assert(a + b =~= a);
        assert(since_block(a, block) + since_block(b, block) =~= since_block(a, block));
    } else {
        assert((a + b).drop_last() =~= a + b.drop_last());
        since_concat(a, b.drop_last(), block);
        assert(since_block(a + b, block) =~= since_block(a, block) + since_block(b, block));
    }
}

/// Cutting twice is cutting at the later block.
proof fn since_twice(history: Seq<StoredEvent>, first: u64, second: u64)
    requires
        first <= second,
    ensures
        since_block(since_block(history, first), second) == since_block(history, second),
    decreases history.len(),
{
    if history.len() != 0 {
        let front = history.drop_last();
        since_twice(front, first, second);
        if history.last().block >= first {
            let cut = since_block(history, first);
            assert(cut.drop_last() =~= since_block(front, first));
            assert(cut.last() == history.last());
        }
    }
}

/// What is stored of logs comes behind what there was.
proof fn logs_come_behind(
    history: Seq<StoredEvent>,
    watched: Set<PoolId>,
    logs: Seq<Log>,
    block: u64,
    current_block: u64,
    from: u64,
)
    requires
        history_cutoff(current_block) <= from,
    ensures
        since_block(history_after_logs(history, watched, logs, block, current_block), from)
            == since_block(history + stored_of(watched, logs, block), from),
    decreases logs.len(),
{
    if logs.len() == 0 {
        assert(history + stored_of(watched, logs, block) =~= history);
    } else {
        let rest = logs.drop_last();
        let before = history_after_logs(history, watched, rest, block, current_block);
        let stored = stored_of(watched, rest, block);
        logs_come_behind(history, watched, rest, block, current_block, from);
        match stored_event_of(watched, logs.last(), block) {
            Some(event) => {
                since_twice(before.push(event), history_cutoff(current_block), from);
                assert(before.push(event) =~= before + seq![event]);
                since_concat(before, seq![event], from);
                since_concat(history + stored, seq![event], from);
                assert(history + stored.push(event) =~= (history + stored) + seq![event]);
            },
            None => {},
        }
    }
}

/// The events that are stored of a block are of that block.
proof fn stored_since(watched: Set<PoolId>, logs: Seq<Log>, block: u64, from: u64)
    ensures
        since_block(stored_of(watched, logs, block), from) == if block >= from {
            stored_of(watched, logs, block)
        } else {
            Seq::empty()
        },
    decreases logs.len(),
{
    if logs.len() != 0 {
        let stored = stored_of(watched, logs, block);
        stored_since(watched, logs.drop_last(), block, from);
        if stored_event_of(watched, logs.last(), block) is Some {
            assert(stored.drop_last() =~= stored_of(watched, logs.drop_last(), block));
        }
    }
}

/// The history of a provider holds what it stored of the blocks that it followed,
/// as far back as it goes.
proof fn history_is_what_was_stored(provider: ProviderView, blocks: Seq<ChainBlock>)
    requires
        provider.history.len() == 0,
        come_after(provider.current_block, blocks),
    ensures
        ({
            let after = provider_after(provider, blocks);
            &&& after.watched == provider.watched
            &&& after.current_block == last_number(provider.current_block, blocks)
            &&& blocks.len() > 0 ==> after.history == since_block(
                stored_of_blocks(provider.watched, blocks),
                history_cutoff(after.current_block),
            )
            &&& blocks.len() == 0 ==> after.history.len() == 0
        }),
    decreases blocks.len(),
{
    if blocks.len() != 0 {
        let front = blocks.drop_last();
        let last = blocks.last();
        history_is_what_was_stored(provider, front);
        let before = provider_after(provider, front);
        let stored = stored_of(provider.watched, last.modify_logs, last.number);
        let earlier = stored_of_blocks(provider.watched, front);
        let cutoff = history_cutoff(last.number);
        assert(history_cutoff(before.current_block) <= cutoff);
        logs_come_behind(
            before.history,
            provider.watched,
            last.modify_logs,
            last.number,
            before.current_block,
            cutoff,
        );
        since_concat(before.history, stored, cutoff);
        since_concat(earlier, stored, cutoff);
        if front.len() != 0 {
            since_twice(earlier, history_cutoff(before.current_block), cutoff);
        } else {
            assert(before.history =~= earlier);
        }
    }
}

proof fn updates_of_concat(a: Seq<StoredEvent>, b: Seq<StoredEvent>)
    ensures
        updates_of(a + b) == updates_of(a) + updates_of(b),
{
    assert(updates_of(a + b) =~= updates_of(a) + updates_of(b));
}

/// What is stored of logs stands for their updates.
proof fn stored_are_updates(watched: Set<PoolId>, logs: Seq<Log>, block: u64)
    ensures
        updates_of(stored_of(watched, logs, block)) == all_liquidity_updates(
            watched,
            logs,
            Some(block),
        ),
    decreases logs.len(),
{
    if logs.len() == 0 {
        assert(updates_of(stored_of(watched, logs, block)) =~= Seq::<PoolUpdate>::empty());
    } else {
        let front = stored_of(watched, logs.drop_last(), block);
        stored_are_updates(watched, logs.drop_last(), block);
        match stored_event_of(watched, logs.last(), block) {
            Some(event) => {
                assert(updates_of(front.push(event)) =~= updates_of(front) + seq![
                    liquidity_update_of(event),
                ]);
            },
            None => {
                assert(updates_of(front) =~= updates_of(front) + Seq::<PoolUpdate>::empty());
            },
        }
    }
}

proof fn changes_of_concat(a: Seq<PoolUpdate>, b: Seq<PoolUpdate>)
    ensures
        changes_of(a + b) == changes_of(a) + changes_of(b),
    decreases b.len(),
{
    if b.len() == 0 {
        assert(a + b =~= a);
        assert(changes_of(a) + changes_of(b) =~= changes_of(a));
    } else {
        assert((a + b).drop_last() =~= a + b.drop_last());
        changes_of_concat(a, b.drop_last());
        assert(changes_of(a + b) =~= changes_of(a) + changes_of(b));
    }
}

proof fn changes_without(events: Seq<PoolUpdate>, k: int)
    requires
        0 <= k < events.len(),
    ensures
        changes_of(events).to_multiset() == if events[k] is LiquidityEvent {
            changes_of(events.remove(k)).to_multiset().insert(events[k])
        } else {
            changes_of(events.remove(k)).to_multiset()
        },
{
    broadcast use vstd::seq_lib::group_to_multiset_ensures;

    let a = events.take(k);
    let one = seq![events[k]];
    let b = events.skip(k + 1);
    assert(events =~= a + one + b);
    assert(events.remove(k) =~= a + b);
    changes_of_concat(a + one, b);
    changes_of_concat(a, one);
    changes_of_concat(a, b);
    assert(one.drop_last() =~= Seq::<PoolUpdate>::empty());
    assert(changes_of(one.drop_last()) =~= Seq::<PoolUpdate>::empty());
    if events[k] is LiquidityEvent {
        assert(changes_of(one) =~= one);
        let whole = changes_of(a) + one + changes_of(b);
        let i = changes_of(a).len() as int;
        assert(whole.remove(i) =~= changes_of(a) + changes_of(b));
        assert(whole[i] == events[k]);
        assert(whole.to_multiset() =~= whole.remove(i).to_multiset().insert(events[k]));
    } else {
        assert(changes_of(one) =~= Seq::<PoolUpdate>::empty());
        assert(changes_of(a) + changes_of(one) + changes_of(b) =~= changes_of(a) + changes_of(b));
    }
}

/// The changes of liquidity among events do not depend on their order.
proof fn changes_permute(a: Seq<PoolUpdate>, b: Seq<PoolUpdate>)
    requires
        a.to_multiset() == b.to_multiset(),
    ensures
        changes_of(a).to_multiset() == changes_of(b).to_multiset(),
    decreases a.len(),
{
    broadcast use vstd::seq_lib::group_to_multiset_ensures;

    assert(a.len() == a.to_multiset().len() && b.len() == b.to_multiset().len());
    if a.len() == 0 {
        assert(a =~= b);
    } else {
        let x = a[a.len() - 1];
        assert(a.to_multiset().contains(x));
        assert(b.to_multiset().contains(x));
        assert(b.contains(x));
        let k = choose|k: int| 0 <= k < b.len() && b[k] == x;
        assert(a.remove(a.len() - 1).to_multiset() =~= b.remove(k).to_multiset());
        changes_permute(a.remove(a.len() - 1), b.remove(k));
        changes_without(a, a.len() - 1);
        changes_without(b, k);
    }
}

/// Swaps are no changes of liquidity.
proof fn swaps_are_no_changes(watched: Set<PoolId>, logs: Seq<Log>, block: u64)
    ensures
        changes_of(all_swap_updates(watched, logs, Some(block))) == Seq::<PoolUpdate>::empty(),
    decreases logs.len(),
{
    if logs.len() != 0 {
        let front = all_swap_updates(watched, logs.drop_last(), Some(block));
        let last = swap_updates(watched, logs.last(), block);
        swaps_are_no_changes(watched, logs.drop_last(), block);
        changes_of_concat(front, last);
        if last.len() != 0 {
            assert(last.drop_last() =~= Seq::<PoolUpdate>::empty());
            assert(changes_of(last.drop_last()) =~= Seq::<PoolUpdate>::empty());
        }
        assert(changes_of(last) =~= Seq::<PoolUpdate>::empty());
        assert(changes_of(front + last) =~= Seq::<PoolUpdate>::empty());
    }
}

/// Events of liquidity logs are changes of liquidity, all of them.
proof fn liquidity_events_are_changes(watched: Set<PoolId>, logs: Seq<Log>, block: u64)
    ensures
        changes_of(all_liquidity_updates(watched, logs, Some(block))) == all_liquidity_updates(
            watched,
            logs,
            Some(block),
        ),
    decreases logs.len(),
{
    if logs.len() != 0 {
        let front = all_liquidity_updates(watched, logs.drop_last(), Some(block));
        let last = liquidity_updates(watched, logs.last(), block);
        liquidity_events_are_changes(watched, logs.drop_last(), block);
        changes_of_concat(front, last);
        if last.len() != 0 {
            assert(last.drop_last() =~= Seq::<PoolUpdate>::empty());
            assert(changes_of(last.drop_last()) =~= Seq::<PoolUpdate>::empty());
        }
        assert(changes_of(last) =~= last);
    }
}

/// The changes of liquidity of a pool in a block are the events of its logs.
proof fn changes_on_chain(block: ChainBlock, id: PoolId)
    ensures
        changes_of(events_on_chain(block, id)).to_multiset() == all_liquidity_updates(
            set![id],
            block.modify_logs,
            Some(block.number),
        ).to_multiset(),
{
    let swaps = all_swap_updates(set![id], block.swap_logs, Some(block.number));
    let changes = all_liquidity_updates(set![id], block.modify_logs, Some(block.number));
    swaps_are_no_changes(set![id], block.swap_logs, block.number);
    liquidity_events_are_changes(set![id], block.modify_logs, block.number);
    changes_of_concat(swaps, changes);
    stable_sort_permutes(swaps + changes);
    changes_permute(events_on_chain(block, id), swaps + changes);
    assert(changes_of(swaps) + changes =~= changes);
}

/// What is stored of blocks since one of them stands for the changes of liquidity
/// of a followed pool since then.
proof fn stored_tells_of_changes(
    registry: RegistryView,
    watched: Set<PoolId>,
    blocks: Seq<ChainBlock>,
    from: u64,
    public: PoolId,
    id: PoolId,
)
    requires
        is_followed(registry, watched, public, id),
    ensures
        events_of(
            updates_of(since_block(stored_of_blocks(watched, blocks), from)),
            registry,
            public,
        ).to_multiset() == changes_of(events_since(blocks, from, id)).to_multiset(),
    decreases blocks.len(),
{
    broadcast use vstd::seq_lib::group_to_multiset_ensures;

    if blocks.len() == 0 {
        assert(updates_of(since_block(stored_of_blocks(watched, blocks), from)) =~= Seq::<
            PoolUpdate,
        >::empty());
    } else {
        let front = blocks.drop_last();
        let last = blocks.last();
        let earlier = stored_of_blocks(watched, front);
        let stored = stored_of(watched, last.modify_logs, last.number);
        stored_tells_of_changes(registry, watched, front, from, public, id);
        since_concat(earlier, stored, from);
        stored_since(watched, last.modify_logs, last.number, from);
        let kept = since_block(earlier, from);
        if last.number >= from {
            updates_of_concat(kept, stored);
            events_of_concat(updates_of(kept), updates_of(stored), registry, public);
            stored_are_updates(watched, last.modify_logs, last.number);
            liquidity_of_logs(
                registry,
                watched,
                last.modify_logs,
                Some(last.number),
                public,
                id,
            );
            changes_on_chain(last, id);
            changes_of_concat(events_since(front, from, id), events_on_chain(last, id));
            vstd::seq_lib::lemma_multiset_commutative(
                events_of(updates_of(kept), registry, public),
                events_of(updates_of(stored), registry, public),
            );
            vstd::seq_lib::lemma_multiset_commutative(
                changes_of(events_since(front, from, id)),
                changes_of(events_on_chain(last, id)),
            );
        } else {
            assert(kept + Seq::<StoredEvent>::empty() =~= kept);
        }
    }
}

proof fn since_block_is_since(history: Seq<StoredEvent>, from: u64)
    ensures
        forall|i: int|
            0 <= i < since_block(history, from).len() ==> from <= (#[trigger] since_block(
                history,
                from,
            )[i]).block,
        forall|i: int|
            0 <= i < since_block(history, from).len() ==> history.contains(
                #[trigger] since_block(history, from)[i],
            ),
    decreases history.len(),
{
    if history.len() != 0 {
        let front = history.drop_last();
        since_block_is_since(front, from);
        let cut = since_block(history, from);
        let before = since_block(front, from);
        assert forall|i: int| 0 <= i < cut.len() implies from <= (#[trigger] cut[i]).block
            && history.contains(cut[i]) by {
            if i < before.len() {
                assert(cut[i] == before[i]);
                let k = choose|k: int| 0 <= k < front.len() && front[k] == before[i];
                assert(history[k] == before[i]);
            } else {
                assert(history[history.len() - 1] == cut[i]);
            }
        }
    }
}

proof fn stored_up_to(watched: Set<PoolId>, logs: Seq<Log>, block: u64)
    ensures
        forall|i: int|
            0 <= i < stored_of(watched, logs, block).len() ==> (#[trigger] stored_of(
                watched,
                logs,
                block,
            )[i]).block == block,
    decreases logs.len(),
{
    if logs.len() != 0 {
        let front = stored_of(watched, logs.drop_last(), block);
        let stored = stored_of(watched, logs, block);
        stored_up_to(watched, logs.drop_last(), block);
        assert forall|i: int| 0 <= i < stored.len() implies (#[trigger] stored[i]).block
            == block by {
            if i < front.len() {
                assert(stored[i] == front[i]);
            }
        }
    }
}

proof fn stored_of_blocks_up_to(block: u64, watched: Set<PoolId>, blocks: Seq<ChainBlock>)
    requires
        come_after(block, blocks),
    ensures
        forall|i: int|
            0 <= i < stored_of_blocks(watched, blocks).len() ==> (#[trigger] stored_of_blocks(
                watched,
                blocks,
            )[i]).block <= last_number(block, blocks),
    decreases blocks.len(),
{
    if blocks.len() != 0 {
        let last = blocks.last();
        let front = stored_of_blocks(watched, blocks.drop_last());
        let new = stored_of(watched, last.modify_logs, last.number);
        let stored = stored_of_blocks(watched, blocks);
        stored_of_blocks_up_to(block, watched, blocks.drop_last());
        stored_up_to(watched, last.modify_logs, last.number);
        assert forall|i: int| 0 <= i < stored.len() implies (#[trigger] stored[i]).block
            <= last_number(block, blocks) by {
            if i < front.len() {
                assert(stored[i] == front[i]);
            } else {
                assert(stored[i] == new[i - front.len()]);
            }
        }
    }
}

/// The history of a provider tells what a reorganization has to undo: after it
/// followed blocks, its events of a followed pool are the changes of liquidity of
/// the pool in those of the blocks that history goes back to, and no event is of
/// a block outside of these.
pub proof fn history_tells_what_to_undo(
    registry: RegistryView,
    provider: ProviderView,
    blocks: Seq<ChainBlock>,
    public: PoolId,
    id: PoolId,
)
    requires
        is_followed(registry, provider.watched, public, id),
        provider.history.len() == 0,
        blocks.len() > 0,
        come_after(provider.current_block, blocks),
    ensures
        ({
            let after = provider_after(provider, blocks);
            let from_block = history_cutoff(after.current_block);
            &&& after.current_block == blocks.last().number
            &&& events_of(updates_of(after.history), registry, public).to_multiset() == changes_of(
                events_since(blocks, from_block, id),
            ).to_multiset()
            &&& forall|i: int|
                0 <= i < after.history.len() ==> from_block <= (#[trigger] after.history[i]).block
                    <= after.current_block
        }),
{
    let after = provider_after(provider, blocks);
    let from_block = history_cutoff(after.current_block);
    let stored = stored_of_blocks(provider.watched, blocks);
    history_is_what_was_stored(provider, blocks);
    stored_tells_of_changes(registry, provider.watched, blocks, from_block, public, id);
    since_block_is_since(stored, from_block);
    stored_of_blocks_up_to(provider.current_block, provider.watched, blocks);
    assert forall|i: int| 0 <= i < after.history.len() implies from_block <= (
    #[trigger] after.history[i]).block <= after.current_block by {
        let k = choose|k: int| 0 <= k < stored.len() && stored[k] == after.history[i];
        assert(stored[k].block <= last_number(provider.current_block, blocks));
    }
}

} // verus!
