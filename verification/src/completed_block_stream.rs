//! A stream of blocks without gaps.
use std::collections::VecDeque;

use vstd::prelude::*;

use crate::words::B256;

verus! {

/// A block and what it carries.
#[derive(Debug)]
pub struct BlockInfo<T> {
    pub number: u64,
    pub hash: B256,
    pub parent_hash: B256,
    pub body: T,
}

/// What stands in the queue: a block that is there, or the number of one that
/// is still to be fetched.
#[derive(Debug)]
pub enum PendingBlock<T> {
    Ready(BlockInfo<T>),
    Fetch(u64),
}

/// The state of a stream of blocks: the last block that it handed out, the
/// block that a gap is being closed for, and the queue.
#[verifier::ext_equal]
pub struct BlockStreamView<T> {
    pub prev_block_hash: B256,
    pub prev_block_number: u64,
    pub solve_for_data: Option<BlockInfo<T>>,
    pub queue: Seq<PendingBlock<T>>,
}

/// Whether a block goes on from the last one: it names it as its parent, has
/// the next number, or replaces it.
pub open spec fn follows<T>(view: BlockStreamView<T>, block: BlockInfo<T>) -> bool {
    ||| block.parent_hash == view.prev_block_hash
    ||| block.number == view.prev_block_number + 1
    // for reorgs.
    ||| block.number == view.prev_block_number
}

/// The stream after a new block arrived. One from before the last block is
/// skipped. One in its place is taken up, as a reorg.
pub open spec fn after_arrival<T>(
    view: BlockStreamView<T>,
    block: BlockInfo<T>,
) -> BlockStreamView<T> {
    if block.number < view.prev_block_number {
        view
    } else {
        BlockStreamView { queue: view.queue.push(PendingBlock::Ready(block)), ..view }
    }
}

/// The stream after the block at the front of the queue is there. While a gap
/// is being closed the block is handed out, and the next one is fetched unless
/// it was the last that was missing. Otherwise the block is handed out if it
/// follows, and if not, it waits for the block after the last one.
pub open spec fn after_front<T>(
    view: BlockStreamView<T>,
    block: BlockInfo<T>,
) -> BlockStreamView<T> {
    let rest = view.queue.skip(1);
    match view.solve_for_data {
        Some(wanted) => if wanted.parent_hash == block.hash || block.number + 1 == wanted.number {
            BlockStreamView {
                prev_block_hash: block.hash,
                prev_block_number: block.number,
                solve_for_data: None,
                queue: seq![PendingBlock::Ready(wanted)] + rest,
            }
        } else {
            BlockStreamView {
                prev_block_hash: block.hash,
                prev_block_number: block.number,
                solve_for_data: view.solve_for_data,
                queue: seq![PendingBlock::Fetch((block.number + 1) as u64)] + rest,
            }
        },
        None => if follows(view, block) {
            BlockStreamView {
                prev_block_hash: block.hash,
                prev_block_number: block.number,
                queue: rest,
                ..view
            }
        } else {
            BlockStreamView {
                solve_for_data: Some(block),
                queue: seq![PendingBlock::Fetch((view.prev_block_number + 1) as u64)] + rest,
                ..view
            }
        },
    }
}

/// Whether the number after a block exists, where it is asked for.
pub open spec fn has_next_number<T>(view: BlockStreamView<T>, block: BlockInfo<T>) -> bool {
    match view.solve_for_data {
        Some(wanted) => wanted.parent_hash == block.hash || block.number < u64::MAX,
        None => block.parent_hash == view.prev_block_hash || view.prev_block_number < u64::MAX,
    }
}

/// Whether a block at the front of the queue is handed out.
pub open spec fn hands_out<T>(view: BlockStreamView<T>, block: BlockInfo<T>) -> bool {
    view.solve_for_data is Some || follows(view, block)
}

/// While a gap is being closed, the block after the last one is being fetched.
pub open spec fn gap_is_fetched<T>(view: BlockStreamView<T>) -> bool {
    view.solve_for_data is Some ==> view.queue.len() > 0 && view.queue[0] == PendingBlock::<
        T,
    >::Fetch((view.prev_block_number + 1) as u64)
}

/// Arrivals and blocks at the front keep the block after the last one at the
/// front while a gap is being closed.
pub proof fn gap_stays_fetched<T>(view: BlockStreamView<T>, block: BlockInfo<T>)
    requires
        gap_is_fetched(view),
    ensures
        gap_is_fetched(after_arrival(view, block)),
        gap_is_fetched(after_front(view, block)),
{
}

/// A stream hands out blocks without gaps: the block that it hands out follows
/// the last one, given that a fetched block has the number that was asked for.
/// The block that it hands out becomes the last one.
pub proof fn blocks_have_no_gaps<T>(view: BlockStreamView<T>, block: BlockInfo<T>)
    requires
        gap_is_fetched(view),
        view.queue.len() > 0,
        view.prev_block_number < u64::MAX,
        match view.queue[0] {
            PendingBlock::Ready(ready) => block == ready,
            PendingBlock::Fetch(number) => block.number == number,
        },
        hands_out(view, block),
    ensures
        follows(view, block),
        after_front(view, block).prev_block_number == block.number,
        after_front(view, block).prev_block_hash == block.hash,
{
}

/// A block that arrives from before the last one is left out; any other waits behind
/// those that wait already. A block in the place of the last one, that of a
/// reorganization, is handed out in its turn and becomes the last one.
pub proof fn arrivals_wait_their_turn<T>(view: BlockStreamView<T>, block: BlockInfo<T>)
    ensures
        ({
            let after = after_arrival(view, block);
            &&& block.number < view.prev_block_number ==> after == view
            &&& block.number >= view.prev_block_number ==> after.queue == view.queue.push(
                PendingBlock::Ready(block),
            ) && after.prev_block_number == view.prev_block_number && after.prev_block_hash
                == view.prev_block_hash && after.solve_for_data == view.solve_for_data
        }),
        block.number == view.prev_block_number && view.solve_for_data is None ==> hands_out(
            view,
            block,
        ) && after_front(view, block).prev_block_hash == block.hash,
{
}

/// A stream goes on with any block short of the last number that there is.
pub proof fn stream_goes_on_with_any_block<T>(view: BlockStreamView<T>, block: BlockInfo<T>)
    requires
        view.prev_block_number < u64::MAX,
        block.number < u64::MAX,
    ensures
        has_next_number(view, block),
{
}

/// A block at the front of the queue is handed out or waits. Where no gap is being
/// closed, one that names the last block as its parent, has the next number or the same
/// one is handed out; any other waits, the block after the last one is fetched first,
/// and the last block stays the last one. While a gap is being closed the block is
/// handed out, and the one that waits comes next where this was the last that was
/// missing; otherwise the next is fetched. Whatever stood behind in the queue still
/// stands there.
pub proof fn front_block_is_handed_out_or_waits<T>(view: BlockStreamView<T>, block: BlockInfo<T>)
    requires
        view.queue.len() > 0,
        has_next_number(view, block),
    ensures
        ({
            let after = after_front(view, block);
            let goes_on = block.parent_hash == view.prev_block_hash || block.number
                == view.prev_block_number + 1 || block.number == view.prev_block_number;
            let behind = view.queue.skip(1);
            &&& hands_out(view, block) ==> after.prev_block_number == block.number
                && after.prev_block_hash == block.hash
            &&& !hands_out(view, block) ==> after.prev_block_number == view.prev_block_number
                && after.prev_block_hash == view.prev_block_hash
            &&& view.solve_for_data is None && goes_on ==> hands_out(view, block) && after.queue
                == behind && after.solve_for_data is None
            &&& view.solve_for_data is None && !goes_on ==> !hands_out(view, block)
                && after.solve_for_data == Some(block) && after.queue.len() == view.queue.len()
                && after.queue[0] == PendingBlock::<T>::Fetch((view.prev_block_number + 1) as u64)
                && after.queue.skip(1) == behind
            &&& view.solve_for_data matches Some(wanted) ==> {
                let closes = wanted.parent_hash == block.hash || wanted.number == block.number + 1;
                &&& hands_out(view, block)
                &&& after.queue.len() == view.queue.len()
                &&& after.queue.skip(1) == behind
                &&& closes ==> after.solve_for_data is None && after.queue[0]
                    == PendingBlock::Ready(wanted)
                &&& !closes ==> after.solve_for_data == Some(wanted) && after.queue[0]
                    == PendingBlock::<T>::Fetch((block.number + 1) as u64)
            }
        }),
{
    let after = after_front(view, block);
    let behind = view.queue.skip(1);
    if after.queue.len() == view.queue.len() {
        assert(after.queue.skip(1) =~= behind);
    }
}

/// Whether blocks by their number make up a chain: each names the one before as
/// its parent, and no two have the same hash.
pub open spec fn is_chain<T>(chain: spec_fn(u64) -> BlockInfo<T>) -> bool {
    &&& forall|n: u64| (#[trigger] chain(n)).number == n
    &&& forall|m: u64, n: u64|
        n == m + 1 ==> (#[trigger] chain(n)).parent_hash == (#[trigger] chain(m)).hash
    &&& forall|m: u64, n: u64|
        (#[trigger] chain(m)).hash == (#[trigger] chain(n)).hash ==> m == n
}

/// What happens to a stream: a block of the chain arrives, or the stream goes
/// on with the block at the front of its queue, which is fetched if need be.
pub enum StreamStep {
    Arrival(u64),
    Front,
}

/// The block at the front of the queue, taken from the chain if it is still to
/// be fetched.
pub open spec fn front_block<T>(
    view: BlockStreamView<T>,
    chain: spec_fn(u64) -> BlockInfo<T>,
) -> BlockInfo<T> {
    match view.queue[0] {
        PendingBlock::Ready(block) => block,
        PendingBlock::Fetch(number) => chain(number),
    }
}

/// The stream after steps, and the blocks that it handed out.
pub open spec fn after_steps<T>(
    view: BlockStreamView<T>,
    chain: spec_fn(u64) -> BlockInfo<T>,
    steps: Seq<StreamStep>,
) -> (BlockStreamView<T>, Seq<BlockInfo<T>>)
    decreases steps.len(),
{
    if steps.len() == 0 {
        (view, Seq::empty())
    } else {
        let (before, out) = after_steps(view, chain, steps.drop_last());
        match steps.last() {
            StreamStep::Arrival(number) => (after_arrival(before, chain(number)), out),
            StreamStep::Front => if before.queue.len() == 0 {
                (before, out)
            } else {
                let block = front_block(before, chain);
                (
                    after_front(before, block),
                    if hands_out(before, block) {
                        out.push(block)
                    } else {
                        out
                    },
                )
            },
        }
    }
}

/// The number of the newest block that arrived, or else the given one.
pub open spec fn newest_arrival(start: u64, steps: Seq<StreamStep>) -> u64
    decreases steps.len(),
{
    if steps.len() == 0 {
        start
    } else {
        match steps.last() {
            StreamStep::Arrival(number) => number,
            StreamStep::Front => newest_arrival(start, steps.drop_last()),
        }
    }
}

/// Whether every block that arrives is newer than all before it.
pub open spec fn arrivals_are_new(start: u64, steps: Seq<StreamStep>) -> bool
    decreases steps.len(),
{
    steps.len() == 0 || {
        &&& arrivals_are_new(start, steps.drop_last())
        &&& steps.last() matches StreamStep::Arrival(number) ==> newest_arrival(
            start,
            steps.drop_last(),
        ) < number
    }
}

/// Whether the queue holds blocks of the chain, each newer than those before it
/// and than the block `low`, up to the newest.
spec fn holds_up_to<T>(
    queue: Seq<PendingBlock<T>>,
    chain: spec_fn(u64) -> BlockInfo<T>,
    low: u64,
    newest: u64,
) -> bool {
    &&& forall|i: int|
        0 <= i < queue.len() ==> (#[trigger] queue[i]) is Ready && queue[i]->Ready_0 == chain(
            queue[i]->Ready_0.number,
        ) && low < queue[i]->Ready_0.number <= newest
    &&& forall|i: int, j: int|
        0 <= i < j < queue.len() ==> (#[trigger] queue[i])->Ready_0.number < (
        #[trigger] queue[j])->Ready_0.number
    &&& if queue.len() == 0 {
        low == newest
    } else {
        queue.last()->Ready_0.number == newest
    }
}

/// Whether a stream is on its way along a chain, between the last block that it
/// handed out and the newest that arrived.
pub closed spec fn runs_along<T>(
    view: BlockStreamView<T>,
    chain: spec_fn(u64) -> BlockInfo<T>,
    newest: u64,
) -> bool {
    &&& view.prev_block_number <= newest
    &&& view.prev_block_hash == chain(view.prev_block_number).hash
    &&& match view.solve_for_data {
        None => holds_up_to(view.queue, chain, view.prev_block_number, newest),
        Some(wanted) => {
            &&& wanted == chain(wanted.number)
            &&& view.prev_block_number + 1 < wanted.number
            &&& view.queue.len() > 0
            &&& view.queue[0] == PendingBlock::<T>::Fetch((view.prev_block_number + 1) as u64)
            &&& holds_up_to(view.queue.skip(1), chain, wanted.number, newest)
        },
    }
}

/// An arrival of a newer block keeps a stream on its way.
proof fn arrival_runs_along<T>(
    view: BlockStreamView<T>,
    chain: spec_fn(u64) -> BlockInfo<T>,
    newest: u64,
    number: u64,
)
    requires
        is_chain(chain),
        runs_along(view, chain, newest),
        newest < number,
    ensures
        runs_along(after_arrival(view, chain(number)), chain, number),
{
    let block = chain(number);
    let after = after_arrival(view, block);
    assert(after.queue == view.queue.push(PendingBlock::Ready(block)));
    if view.solve_for_data is Some {
        let wanted = view.solve_for_data->0;
        let rest = view.queue.skip(1);
        assert(after.queue.skip(1) =~= rest.push(PendingBlock::Ready(block)));
        assert(holds_up_to(after.queue.skip(1), chain, wanted.number, number));
    } else {
        assert(holds_up_to(after.queue, chain, view.prev_block_number, number));
    }
}

/// The steps that are left at most until the queue of a stream is empty.
pub open spec fn steps_left<T>(view: BlockStreamView<T>, newest: u64) -> int {
    2 * (newest - view.prev_block_number) - if view.solve_for_data is Some {
        1int
    } else {
        0
    }
}

/// A stream on its way along a chain gets on with every block at the front of
/// its queue: it hands out the block after the last one, or starts to close the
/// gap before the one at the front.
pub proof fn stream_gets_on<T>(
    view: BlockStreamView<T>,
    chain: spec_fn(u64) -> BlockInfo<T>,
    newest: u64,
)
    requires
        is_chain(chain),
        runs_along(view, chain, newest),
        view.queue.len() > 0,
    ensures
        ({
            let block = front_block(view, chain);
            let after = after_front(view, block);
            &&& runs_along(after, chain, newest)
            &&& 0 <= steps_left(after, newest) < steps_left(view, newest)
            &&& has_next_number(view, block)
            &&& if hands_out(view, block) {
                block == chain((view.prev_block_number + 1) as u64) && after.prev_block_number
                    == view.prev_block_number + 1
            } else {
                after.prev_block_number == view.prev_block_number
            }
        }),
{
    let block = front_block(view, chain);
    let after = after_front(view, block);
    let rest = view.queue.skip(1);
    let prev = view.prev_block_number;
    match view.solve_for_data {
        Some(wanted) => {
            let got = (prev + 1) as u64;
            assert(block == chain(got));
            let before_wanted = (wanted.number - 1) as u64;
            assert(wanted.parent_hash == chain(before_wanted).hash);
            assert(wanted.parent_hash == block.hash ==> before_wanted == got);
            if wanted.parent_hash == block.hash || block.number + 1 == wanted.number {
                assert(after.queue == seq![PendingBlock::Ready(wanted)] + rest);
                assert forall|i: int| 0 <= i < after.queue.len() implies (
                #[trigger] after.queue[i]) is Ready && after.queue[i]->Ready_0 == chain(
                    after.queue[i]->Ready_0.number,
                ) && got < after.queue[i]->Ready_0.number <= newest by {
                    if i > 0 {
                        assert(after.queue[i] == rest[i - 1]);
                    } else if rest.len() > 0 {
                        assert(rest[0]->Ready_0.number <= newest);
                    }
                }
                assert forall|i: int, j: int| 0 <= i < j < after.queue.len() implies (
                #[trigger] after.queue[i])->Ready_0.number < (
                #[trigger] after.queue[j])->Ready_0.number by {
                    assert(after.queue[j] == rest[j - 1]);
                    if i > 0 {
                        assert(after.queue[i] == rest[i - 1]);
                    }
                }
                if rest.len() > 0 {
                    assert(after.queue.last() == rest.last());
                }
                assert(holds_up_to(after.queue, chain, got, newest));
            } else {
                assert(after.queue.skip(1) =~= rest);
                if rest.len() > 0 {
                    assert(rest.last()->Ready_0.number == newest);
                    assert(rest[rest.len() - 1]->Ready_0.number > wanted.number);
                }
            }
        },
        None => {
            assert(view.queue[0] is Ready);
            let number = block.number;
            assert(prev < number <= newest);
            let before = (number - 1) as u64;
            assert(block.parent_hash == chain(before).hash);
            assert(block.parent_hash == view.prev_block_hash ==> before == prev);
            assert forall|i: int| 0 <= i < rest.len() implies (#[trigger] rest[i]) is Ready
                && rest[i]->Ready_0 == chain(rest[i]->Ready_0.number) && number
                < rest[i]->Ready_0.number <= newest by {
                assert(rest[i] == view.queue[i + 1]);
            }
            assert forall|i: int, j: int| 0 <= i < j < rest.len() implies (
            #[trigger] rest[i])->Ready_0.number < (#[trigger] rest[j])->Ready_0.number by {
                assert(rest[i] == view.queue[i + 1]);
                assert(rest[j] == view.queue[j + 1]);
            }
            if rest.len() > 0 {
                assert(rest.last() == view.queue.last());
            }
            assert(holds_up_to(rest, chain, number, newest));
            if !follows(view, block) {
                assert(after.queue.skip(1) =~= rest);
            }
        },
    }
}

/// A stream that goes on from a block of a chain hands out the blocks of the
/// chain after it one by one, none left out and none twice, whichever of them
/// its source brings. With an empty queue it has handed out all up to the
/// newest that arrived.
pub proof fn stream_leaves_nothing_out<T>(
    start: BlockStreamView<T>,
    chain: spec_fn(u64) -> BlockInfo<T>,
    steps: Seq<StreamStep>,
)
    requires
        is_chain(chain),
        start.prev_block_hash == chain(start.prev_block_number).hash,
        start.solve_for_data is None,
        start.queue.len() == 0,
        arrivals_are_new(start.prev_block_number, steps),
    ensures
        ({
            let first = start.prev_block_number;
            let newest = newest_arrival(first, steps);
            let (after, out) = after_steps(start, chain, steps);
            &&& forall|i: int|
                0 <= i < out.len() ==> #[trigger] out[i] == chain((first + 1 + i) as u64)
            &&& first + out.len() == after.prev_block_number <= newest
            &&& after.queue.len() == 0 ==> after.prev_block_number == newest
            &&& runs_along(after, chain, newest)
        }),
    decreases steps.len(),
{
    let first = start.prev_block_number;
    if steps.len() == 0 {
        assert(runs_along(start, chain, first));
    } else {
        stream_leaves_nothing_out(start, chain, steps.drop_last());
        let newest = newest_arrival(first, steps.drop_last());
        let (before, out) = after_steps(start, chain, steps.drop_last());
        match steps.last() {
            StreamStep::Arrival(number) => {
                arrival_runs_along(before, chain, newest, number);
            },
            StreamStep::Front => {
                if before.queue.len() > 0 {
                    stream_gets_on(before, chain, newest);
                }
            },
        }
    }
}

/// A stream of blocks that fetches those which its source leaves out.
#[derive(Debug)]
pub struct CompletedBlockStream<T> {
    pub prev_block_hash: B256,
    pub prev_block_number: u64,
    /// the block that a gap is being closed for
    pub solve_for_data: Option<BlockInfo<T>>,
    pub processing_blocks: VecDeque<PendingBlock<T>>,
}

impl<T> View for CompletedBlockStream<T> {
    type V = BlockStreamView<T>;

    open spec fn view(&self) -> BlockStreamView<T> {
        BlockStreamView {
            prev_block_hash: self.prev_block_hash,
            prev_block_number: self.prev_block_number,
            solve_for_data: self.solve_for_data,
            queue: self.processing_blocks@,
        }
    }
}

impl<T> CompletedBlockStream<T> {
    /// A stream that goes on from a block.
    pub fn new(prev_block_hash: B256, prev_block_number: u64) -> (r: CompletedBlockStream<T>)
        ensures
            r@ == (BlockStreamView::<T> {
                prev_block_hash,
                prev_block_number,
                solve_for_data: None,
                queue: Seq::empty(),
            }),
    {
        CompletedBlockStream {
            prev_block_hash,
            prev_block_number,
            solve_for_data: None,
            processing_blocks: VecDeque::new(),
        }
    }

    /// Whether a gap is being closed. Until it is, no new block is taken up.
    pub fn is_solving(&self) -> (r: bool)
        ensures
            r == (self@.solve_for_data is Some),
    {
        self.solve_for_data.is_some()
    }

    /// The number of the block at the front of the queue, if it is still to be
    /// fetched.
    pub fn wanted_block(&self) -> (r: Option<u64>)
        ensures
            r == if self@.queue.len() > 0 {
                match self@.queue[0] {
                    PendingBlock::Fetch(number) => Some(number),
                    PendingBlock::Ready(_) => None,
                }
            } else {
                None
            },
    {
        if self.processing_blocks.len() == 0 {
            return None;
        }
        match &self.processing_blocks[0] {
            PendingBlock::Fetch(number) => Some(*number),
            PendingBlock::Ready(_) => None,
        }
    }

    /// Takes up a block that arrived.
    pub fn on_block(&mut self, new_block: BlockInfo<T>)
        ensures
            final(self)@ == after_arrival(old(self)@, new_block),
    {
        if new_block.number < self.prev_block_number {
            return;
        }
        self.processing_blocks.push_back(PendingBlock::Ready(new_block));
    }

    /// Takes the block at the front of the queue, if it is there.
    pub fn take_ready(&mut self) -> (r: Option<BlockInfo<T>>)
        ensures
            match r {
                Some(block) => old(self)@.queue.len() > 0 && old(self)@.queue[0]
                    == PendingBlock::Ready(block) && final(self)@ == (BlockStreamView {
                    queue: old(self)@.queue.skip(1),
                    ..old(self)@
                }),
                None => (old(self)@.queue.len() == 0 || old(self)@.queue[0] is Fetch)
                    && final(self)@ == old(self)@,
            },
    {
        if self.processing_blocks.len() == 0 || self.wanted_block().is_some() {
            return None;
        }
        let front: Option<PendingBlock<T>> = self.processing_blocks.pop_front();
        assert(self@.queue =~= old(self)@.queue.skip(1));
        match front {
            Some(PendingBlock::Ready(block)) => Some(block),
            _ => {
                assert(false);
                None
            },
        }
    }

    /// Goes on with the block at the front of the queue, which was taken from
    /// there: hands it out, or keeps it until the gap before it is closed.
    fn settle(&mut self, block: BlockInfo<T>, Ghost(queue): Ghost<Seq<PendingBlock<T>>>) -> (r:
        Option<BlockInfo<T>>)
        requires
            queue.len() > 0,
            old(self)@.queue == queue.skip(1),
            has_next_number(old(self)@, block),
        ensures
            ({
                let before = BlockStreamView { queue, ..old(self)@ };
                &&& final(self)@ == after_front(before, block)
                &&& r == if hands_out(before, block) {
                    Some(block)
                } else {
                    None
                }
            }),
    {
        let ghost rest = queue.skip(1);
        match self.solve_for_data.take() {
            Some(wanted_block_data) => {
                self.prev_block_hash = block.hash;
                self.prev_block_number = block.number;
                if wanted_block_data.parent_hash == self.prev_block_hash || block.number + 1
                    == wanted_block_data.number {
                    self.processing_blocks.push_front(PendingBlock::Ready(wanted_block_data));
                    assert(self@.queue =~= seq![PendingBlock::Ready(wanted_block_data)] + rest);
                } else {
                    let next: u64 = self.prev_block_number + 1;
                    self.solve_for_data = Some(wanted_block_data);
                    self.processing_blocks.push_front(PendingBlock::Fetch(next));
                    assert(self@.queue =~= seq![PendingBlock::Fetch(next)] + rest);
                }
                Some(block)
            },
            None => {
                if block.parent_hash != self.prev_block_hash && block.number
                    != self.prev_block_number + 1
                // for reorgs.
                 && self.prev_block_number != block.number {
                    let next: u64 = self.prev_block_number + 1;
                    self.solve_for_data = Some(block);
                    self.processing_blocks.push_front(PendingBlock::Fetch(next));
                    assert(self@.queue =~= seq![PendingBlock::Fetch(next)] + rest);
                    return None;
                }
                self.prev_block_number = block.number;
                self.prev_block_hash = block.hash;
                Some(block)
            },
        }
    }

    /// Goes on with the block at the front of the queue, if it is there.
    pub fn next_ready(&mut self) -> (r: Option<BlockInfo<T>>)
        requires
            old(self)@.queue.len() > 0 ==> (old(self)@.queue[0] matches PendingBlock::Ready(block)
                ==> has_next_number(old(self)@, block)),
        ensures
            if old(self)@.queue.len() > 0 && old(self)@.queue[0] is Ready {
                &&& final(self)@ == after_front(old(self)@, old(self)@.queue[0]->Ready_0)
                &&& r == if hands_out(old(self)@, old(self)@.queue[0]->Ready_0) {
                    Some(old(self)@.queue[0]->Ready_0)
                } else {
                    None
                }
            } else {
                r is None && final(self)@ == old(self)@
            },
    {
        let ghost queue = self@.queue;
        match self.take_ready() {
            Some(block) => self.settle(block, Ghost(queue)),
            None => None,
        }
    }

    /// Goes on with a block that was fetched for the front of the queue.
    pub fn on_fetched(&mut self, block: BlockInfo<T>) -> (r: Option<BlockInfo<T>>)
        requires
            has_next_number(old(self)@, block),
            old(self)@.queue.len() > 0,
            old(self)@.queue[0] is Fetch,
        ensures
            final(self)@ == after_front(old(self)@, block),
            r == if hands_out(old(self)@, block) {
                Some(block)
            } else {
                None
            },
    {
        let ghost queue = self@.queue;
        let _ = self.processing_blocks.pop_front();
        assert(self@.queue =~= queue.skip(1));
        self.settle(block, Ghost(queue))
    }
}

} // verus!
