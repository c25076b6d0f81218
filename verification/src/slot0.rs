//! Subscriptions to prices from a real-time feed.
use vstd::prelude::*;

use crate::id_collections::PoolIdSet;
use crate::updates::Slot0Update;
use crate::words::PoolId;

verus! {

/// The set with the members of a list.
pub open spec fn with_all(pools: Set<PoolId>, more: Seq<PoolId>) -> Set<PoolId> {
    pools.union(more.to_set())
}

/// The set without the members of a list.
pub open spec fn without_all(pools: Set<PoolId>, less: Seq<PoolId>) -> Set<PoolId> {
    pools.difference(less.to_set())
}

/// Adds all of a list.
fn insert_all(pools: &mut PoolIdSet, more: &Vec<PoolId>)
    ensures
        final(pools)@ == with_all(old(pools)@, more@),
{
    let mut i: usize = 0;
    assert(pools@ =~= with_all(old(pools)@, more@.take(0)));
    while i < more.len()
        invariant
            i <= more.len(),
            pools@ == with_all(old(pools)@, more@.take(i as int)),
        decreases more.len() - i,
    {
        pools.insert(more[i]);
        proof {
            take_adds_one(more@, i as int);
            assert(pools@ =~= with_all(old(pools)@, more@.take(i + 1)));
        }
        i = i + 1;
    }
    assert(more@.take(i as int) =~= more@);
}

/// Takes out all of a list.
fn remove_all(pools: &mut PoolIdSet, less: &Vec<PoolId>)
    ensures
        final(pools)@ == without_all(old(pools)@, less@),
{
    let mut i: usize = 0;
    assert(pools@ =~= without_all(old(pools)@, less@.take(0)));
    while i < less.len()
        invariant
            i <= less.len(),
            pools@ == without_all(old(pools)@, less@.take(i as int)),
        decreases less.len() - i,
    {
        pools.remove(&less[i]);
        proof {
            take_adds_one(less@, i as int);
            assert(pools@ =~= without_all(old(pools)@, less@.take(i + 1)));
        }
        i = i + 1;
    }
    assert(less@.take(i as int) =~= less@);
}

/// One more element of a list adds itself to the set of its elements.
proof fn take_adds_one(list: Seq<PoolId>, i: int)
    requires
        0 <= i < list.len(),
    ensures
        list.take(i + 1).to_set() == list.take(i).to_set().insert(list[i]),
{
    let before = list.take(i);
    let after = list.take(i + 1);
    assert forall|id: PoolId| #[trigger]
        after.to_set().contains(id) == before.to_set().insert(list[i]).contains(id) by {
        if after.contains(id) {
            let k = choose|k: int| 0 <= k < after.len() && after[k] == id;
            if k < i {
                assert(before[k] == id);
            }
        }
        if before.contains(id) {
            let k = choose|k: int| 0 <= k < before.len() && before[k] == id;
            assert(after[k] == id);
        }
        assert(after[i] == list[i]);
    }
    assert(after.to_set() =~= before.to_set().insert(list[i]));
}

/// The state of a client: the pools that it subscribes to, whether it has a
/// subscription, and whether it is waiting for one.
#[verifier::ext_equal]
pub struct Slot0ClientView {
    pub subscribed_pools: Set<PoolId>,
    pub has_subscription: bool,
    pub is_connecting: bool,
}

/// What can happen to a client.
#[derive(Clone, Copy, Debug, PartialEq, Eq, Structural)]
pub enum Slot0Event {
    /// The subscription that was asked for is there.
    Connected,
    /// The subscription that was asked for was refused.
    ConnectFailed,
    /// A price came in.
    Update(Slot0Update),
    /// The subscription failed or ended.
    Lost,
}

/// What a client does about it.
#[derive(Debug)]
pub enum Slot0Action {
    /// Wait.
    Wait,
    /// Hand on a price.
    Emit(Slot0Update),
    /// Subscribe to these pools, and be woken up.
    Connect(Vec<PoolId>),
}

/// Client for subscribing to slot0 updates
#[derive(Debug)]
pub struct Slot0Client {
    pub subscribed_pools: PoolIdSet,
    pub has_subscription: bool,
    pub is_connecting: bool,
}

impl View for Slot0Client {
    type V = Slot0ClientView;

    open spec fn view(&self) -> Slot0ClientView {
        Slot0ClientView {
            subscribed_pools: self.subscribed_pools@,
            has_subscription: self.has_subscription,
            is_connecting: self.is_connecting,
        }
    }
}

/// Whether a list asks for exactly some pools, each once.
pub open spec fn asks_for(request: Seq<PoolId>, pools: Set<PoolId>) -> bool {
    request.no_duplicates() && request.to_set() == pools
}

impl Slot0Client {
    /// A client that subscribes to nothing yet.
    pub fn new() -> (r: Slot0Client)
        ensures
            r@ == (Slot0ClientView {
                subscribed_pools: Set::empty(),
                has_subscription: false,
                is_connecting: false,
            }),
    {
        Slot0Client {
            subscribed_pools: PoolIdSet::new(),
            has_subscription: false,
            is_connecting: false,
        }
    }

    /// Asks for a subscription to all pools once more.
    pub fn reconnect(&mut self) -> (r: Vec<PoolId>)
        ensures
            final(self)@ == (Slot0ClientView { is_connecting: true, ..old(self)@ }),
            asks_for(r@, old(self)@.subscribed_pools),
    {
        self.is_connecting = true;
        self.subscribed_pools.to_vec()
    }

    /// Subscribe to updates for a set of pools
    pub fn subscribe_pools(&mut self, pools: &Vec<PoolId>) -> (r: Vec<PoolId>)
        ensures
            final(self)@ == (Slot0ClientView {
                subscribed_pools: with_all(old(self)@.subscribed_pools, pools@),
                is_connecting: true,
                ..old(self)@
            }),
            asks_for(r@, with_all(old(self)@.subscribed_pools, pools@)),
    {
        insert_all(&mut self.subscribed_pools, pools);
        self.reconnect()
    }

    /// Unsubscribe from updates for a set of pools
    pub fn unsubscribe_pools(&mut self, pools: &Vec<PoolId>) -> (r: Vec<PoolId>)
        ensures
            final(self)@ == (Slot0ClientView {
                subscribed_pools: without_all(old(self)@.subscribed_pools, pools@),
                is_connecting: true,
                ..old(self)@
            }),
            asks_for(r@, without_all(old(self)@.subscribed_pools, pools@)),
    {
        remove_all(&mut self.subscribed_pools, pools);
        self.reconnect()
    }

    /// Get the current set of subscribed pools
    pub fn subscribed_pools(&self) -> (r: &PoolIdSet)
        ensures
            r@ == self@.subscribed_pools,
    {
        &self.subscribed_pools
    }

    /// Goes on after an event: a new subscription takes the place of the old
    /// one, a price is handed on, and whatever fails is asked for again.
    pub fn on_event(&mut self, event: Slot0Event) -> (r: Slot0Action)
        ensures
            match event {
                Slot0Event::Connected => r is Wait && final(self)@ == (Slot0ClientView {
                    has_subscription: true,
                    is_connecting: false,
                    ..old(self)@
                }),
                Slot0Event::Update(update) => r == Slot0Action::Emit(update) && final(self)@
                    == old(self)@,
                _ => (r matches Slot0Action::Connect(pools) && asks_for(
                    pools@,
                    old(self)@.subscribed_pools,
                )) && final(self)@ == (Slot0ClientView { is_connecting: true, ..old(self)@ }),
            },
    {
        match event {
            Slot0Event::Connected => {
                self.has_subscription = true;
                self.is_connecting = false;
                Slot0Action::Wait
            },
            Slot0Event::Update(update) => Slot0Action::Emit(update),
            _ => Slot0Action::Connect(self.reconnect()),
        }
    }
}

/// Unsubscribing from pools right after subscribing to them leaves the pools
/// that were subscribed to before and are not among them.
pub proof fn unsubscribing_undoes(pools: Set<PoolId>, list: Seq<PoolId>)
    ensures
        without_all(with_all(pools, list), list) == without_all(pools, list),
{
    assert(without_all(with_all(pools, list), list) =~= without_all(pools, list));
}

/// Subscribing to pools adds them to those that are subscribed to, and unsubscribing
/// takes them out; every other pool stays as it was.
pub proof fn subscriptions_change_as_asked(pools: Set<PoolId>, list: Seq<PoolId>, id: PoolId)
    ensures
        list.contains(id) ==> with_all(pools, list).contains(id) && !without_all(
            pools,
            list,
        ).contains(id),
        !list.contains(id) ==> with_all(pools, list).contains(id) == pools.contains(id)
            && without_all(pools, list).contains(id) == pools.contains(id),
{
}

/// A no-op implementation of a slot0 stream for testing or when no stream is
/// needed
#[derive(Debug)]
pub struct NoOpSlot0Stream {
    placeholder: PoolIdSet,
}

impl View for NoOpSlot0Stream {
    type V = Set<PoolId>;

    closed spec fn view(&self) -> Set<PoolId> {
        self.placeholder@
    }
}

impl NoOpSlot0Stream {
    /// A stream that subscribes to nothing.
    pub fn new() -> (r: NoOpSlot0Stream)
        ensures
            r@ == Set::<PoolId>::empty(),
    {
        NoOpSlot0Stream { placeholder: PoolIdSet::new() }
    }

    /// Does nothing.
    pub fn subscribe_pools(&mut self, _pools: &Vec<PoolId>)
        ensures
            final(self)@ == old(self)@,
    {
    }

    /// Does nothing.
    pub fn unsubscribe_pools(&mut self, _pools: &Vec<PoolId>)
        ensures
            final(self)@ == old(self)@,
    {
    }

    /// No pool is ever subscribed to.
    pub fn subscribed_pools(&self) -> (r: &PoolIdSet)
        ensures
            r@ == self@,
    {
        &self.placeholder
    }
}

impl Default for NoOpSlot0Stream {
    fn default() -> (r: NoOpSlot0Stream)
        ensures
            r@ == Set::<PoolId>::empty(),
    {
        NoOpSlot0Stream::new()
    }
}

} // verus!
