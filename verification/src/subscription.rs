//! Subscriptions to queries: which queries are watched, and which results
//! are news.
//!
//! The manager decides; it calls nothing. Whoever drives it evaluates the
//! query of a subscription, hands in a fingerprint of the result, and makes
//! the call that the manager asks for.

use crate::ecs::engine::query_result;
use crate::ecs::query::{QueryDescriptor, QueryResult};
use crate::ecs::world::World;
use std::collections::hash_map::Entry;
use std::collections::HashMap;
use vstd::prelude::*;
use vstd::std_specs::hash::spec_keys_iter;
use vstd::std_specs::iter::IteratorSpec;

verus! {

/// A watched query, the callback of its subscriber, and the fingerprint of
/// the result that the subscriber was last told of.
pub struct QuerySubscription<C> {
    pub query: QueryDescriptor,
    pub callback: C,
    /// `None` until the subscriber is told of a first result.
    pub last_result_hash: Option<u64>,
}

/// The subscriptions, each under the id it was given.
pub struct QuerySubscriptionManager<C> {
    subscriptions: HashMap<u32, QuerySubscription<C>>,
    next_id: u32,
}

/// The mathematical content of a [`QuerySubscriptionManager`].
pub ghost struct ManagerView<C> {
    /// The subscriptions by their ids.
    pub subscriptions: Map<u32, QuerySubscription<C>>,
    /// The id that the next subscription gets.
    pub next_id: u32,
}

impl<C> ManagerView<C> {
    /// What holds of the content of every manager: the ids were given from
    /// one onwards, and the next id was given to none.
    pub open spec fn valid(&self) -> bool {
        &&& self.next_id >= 1
        &&& self.subscriptions.dom().finite()
        &&& forall|id: u32| #[trigger] self.subscriptions.contains_key(id) ==> 1 <= id < self.next_id
    }

    /// The content with a new value for the subscription under an id.
    pub open spec fn with(&self, id: u32, subscription: QuerySubscription<C>) -> ManagerView<C> {
        ManagerView { subscriptions: self.subscriptions.insert(id, subscription), ..*self }
    }

    /// The content after a subscription was taken in under the next id.
    pub open spec fn after_subscribe(&self, query: QueryDescriptor, callback: C) -> ManagerView<C> {
        ManagerView {
            subscriptions: self.subscriptions.insert(
                self.next_id,
                QuerySubscription { query, callback, last_result_hash: None },
            ),
            next_id: (self.next_id + 1) as u32,
        }
    }

    /// The content after the subscription under an id was ended.
    pub open spec fn after_unsubscribe(&self, id: u32) -> ManagerView<C> {
        ManagerView { subscriptions: self.subscriptions.remove(id), ..*self }
    }

    /// The content after a result with the given fingerprint was looked at
    /// for the subscription under an id.
    pub open spec fn after_observe(&self, id: u32, fingerprint: u64) -> ManagerView<C> {
        if self.subscriptions.contains_key(id) {
            self.with(
                id,
                QuerySubscription {
                    last_result_hash: after_look(
                        self.subscriptions[id].last_result_hash,
                        fingerprint,
                    ),
                    ..self.subscriptions[id]
                },
            )
        } else {
            *self
        }
    }

    /// Whether a result with the given fingerprint is news to the
    /// subscriber under an id.
    pub open spec fn owes_call(&self, id: u32, fingerprint: u64) -> bool {
        self.subscriptions.contains_key(id) && is_news(
            self.subscriptions[id].last_result_hash,
            fingerprint,
        )
    }
}

/// Whether a result with the given fingerprint is news to a subscriber that
/// was last told of `last`.
pub open spec fn is_news(last: Option<u64>, fingerprint: u64) -> bool {
    last != Some(fingerprint)
}

/// What a subscriber was last told of, after a result with the given
/// fingerprint was looked at: the result it was told of before if this one
/// is no news, and this one if it is.
pub open spec fn after_look(last: Option<u64>, fingerprint: u64) -> Option<u64> {
    if is_news(last, fingerprint) {
        Some(fingerprint)
    } else {
        last
    }
}

/// A result that does not differ from the one before it is no news, however
/// often it is looked at.
pub proof fn lemma_same_result_is_silent(last: Option<u64>, fingerprint: u64)
    ensures
        !is_news(after_look(last, fingerprint), fingerprint),
        after_look(after_look(last, fingerprint), fingerprint) == after_look(last, fingerprint),
{
}

/// A result that differs from the one before it is news once: when it is
/// looked at again, it is news no more.
pub proof fn lemma_new_result_is_told_once(last: Option<u64>, before: u64, fingerprint: u64)
    requires
        before != fingerprint,
    ensures
        is_news(after_look(last, before), fingerprint),
        !is_news(after_look(after_look(last, before), fingerprint), fingerprint),
{
}

/// The first result is news, whatever its fingerprint.
pub proof fn lemma_first_result_is_news(fingerprint: u64)
    ensures
        is_news(None, fingerprint),
{
}

/// A subscriber is called for the first result, not called again while the
/// result stays the same, and called once when it changes.
pub proof fn lemma_calls_follow_changes<C>(
    view: ManagerView<C>,
    query: QueryDescriptor,
    callback: C,
    first: u64,
    second: u64,
)
    ensures
        ({
            let id = view.next_id;
            let subscribed = view.after_subscribe(query, callback);
            let told = subscribed.after_observe(id, first);
            let again = told.after_observe(id, first);
            let changed = again.after_observe(id, second);
            &&& subscribed.owes_call(id, first)
            &&& !told.owes_call(id, first)
            &&& again == told
            &&& second != first ==> again.owes_call(id, second)
            &&& !changed.owes_call(id, second)
        }),
{
    let id = view.next_id;
    let subscribed = view.after_subscribe(query, callback);
    let told = subscribed.after_observe(id, first);
    let again = told.after_observe(id, first);
    assert(again.subscriptions =~= told.subscriptions);
}

impl<C> View for QuerySubscriptionManager<C> {
    type V = ManagerView<C>;

    closed spec fn view(&self) -> ManagerView<C> {
        ManagerView { subscriptions: self.subscriptions@, next_id: self.next_id }
    }
}

impl<C> QuerySubscriptionManager<C> {
    /// The invariant of the manager: its content is valid.
    pub open spec fn wf(&self) -> bool {
        self@.valid()
    }

    /// A manager without subscriptions. The first id it gives is 1.
    pub fn new() -> (r: Self)
        ensures
            r.wf(),
            r@.subscriptions == Map::<u32, QuerySubscription<C>>::empty(),
            r@.next_id == 1,
    {
        QuerySubscriptionManager { subscriptions: HashMap::new(), next_id: 1 }
    }

    /// Whether there is an id left for another subscription.
    pub fn can_subscribe(&self) -> (r: bool)
        ensures
            r == (self@.next_id < u32::MAX),
    {
        self.next_id < u32::MAX
    }

    /// Takes a subscription in and returns its id. The subscriber has not
    /// been told of any result yet.
    pub fn subscribe(&mut self, query: QueryDescriptor, callback: C) -> (id: u32)
        requires
            old(self).wf(),
            old(self)@.next_id < u32::MAX,
        ensures
            final(self).wf(),
            id == old(self)@.next_id,
            !old(self)@.subscriptions.contains_key(id),
            final(self)@ == old(self)@.after_subscribe(query, callback),
    {
        let id: u32 = self.next_id;
        self.next_id = self.next_id + 1;
        self.subscriptions.insert(id, QuerySubscription { query, callback, last_result_hash: None });
        id
    }

    /// Ends a subscription. Returns whether there was one under the id.
    pub fn unsubscribe(&mut self, id: u32) -> (r: bool)
        requires
            old(self).wf(),
        ensures
            final(self).wf(),
            r == old(self)@.subscriptions.contains_key(id),
            final(self)@ == old(self)@.after_unsubscribe(id),
    {
        let removed = self.subscriptions.remove(&id);
        assert(final(self)@.subscriptions =~= old(self)@.subscriptions.remove(id));
        removed.is_some()
    }

    /// The ids of the subscriptions, each once, in no particular order.
    pub fn subscription_ids(&self) -> (r: Vec<u32>)
        requires
            self.wf(),
        ensures
            r@.no_duplicates(),
            r@.to_set() == self@.subscriptions.dom(),
            r@.len() == self@.subscriptions.dom().len(),
    {
        let mut ids: Vec<u32> = Vec::new();
        let ghost keys = spec_keys_iter(&self.subscriptions).remaining();
        for id in iter: self.subscriptions.keys()
            invariant
                iter.seq() == keys,
                ids@.len() == iter.index(),
                forall|k: int| 0 <= k < ids@.len() ==> ids@[k] == *keys[k],
        {
            ids.push(*id);
        }
        proof {
            assert(ids@ =~= keys.unref());
            assert forall|a: int, b: int|
                0 <= a < ids@.len() && 0 <= b < ids@.len() && a != b implies ids@[a] != ids@[b] by {
                assert(keys[a] != keys[b]);
            }
        }
        ids
    }

    /// The subscription under an id, if there is one.
    pub fn get(&self, id: u32) -> (r: Option<&QuerySubscription<C>>)
        requires
            self.wf(),
        ensures
            match r {
                Some(subscription) => self@.subscriptions.contains_key(id) && *subscription
                    == self@.subscriptions[id],
                None => !self@.subscriptions.contains_key(id),
            },
    {
        self.subscriptions.get(&id)
    }

    /// Mutable access to the subscription under an id, if there is one.
    pub fn get_mut(&mut self, id: u32) -> (r: Option<&mut QuerySubscription<C>>)
        requires
            old(self).wf(),
        ensures
            final(self).wf(),
            match r {
                Some(subscription) => {
                    &&& old(self)@.subscriptions.contains_key(id)
                    &&& *subscription == old(self)@.subscriptions[id]
                    &&& final(self)@ == old(self)@.with(id, *final(subscription))
                },
                None => !old(self)@.subscriptions.contains_key(id) && final(self)@ == old(self)@,
            },
    {
        if !self.subscriptions.contains_key(&id) {
            return None;
        }
        match self.subscriptions.entry(id) {
            Entry::Occupied(entry) => Some(entry.into_mut()),
            Entry::Vacant(_) => None,
        }
    }

    /// The result of the query of a subscription on a world, if there is
    /// one under the id.
    pub fn evaluate(&self, id: u32, world: &World) -> (r: Option<QueryResult>)
        requires
            self.wf(),
            world.wf(),
        ensures
            match r {
                Some(result) => self@.subscriptions.contains_key(id) && result@ == query_result(
                    world@,
                    self@.subscriptions[id].query,
                ),
                None => !self@.subscriptions.contains_key(id),
            },
    {
        match self.get(id) {
            Some(subscription) => Some(world.execute_query(&subscription.query)),
            None => None,
        }
    }

    /// The result of the query of every subscription on a world, each
    /// under the id of its subscription, in no particular order.
    pub fn evaluate_all(&self, world: &World) -> (r: Vec<(u32, QueryResult)>)
        requires
            self.wf(),
            world.wf(),
        ensures
            r@.len() == self@.subscriptions.dom().len(),
            r@.map_values(|pair: (u32, QueryResult)| pair.0).no_duplicates(),
            r@.map_values(|pair: (u32, QueryResult)| pair.0).to_set() == self@.subscriptions.dom(),
            forall|k: int|
                0 <= k < r@.len() ==> {
                    &&& self@.subscriptions.contains_key((#[trigger] r@[k]).0)
                    &&& r@[k].1@ == query_result(world@, self@.subscriptions[r@[k].0].query)
                },
    {
        let ids = self.subscription_ids();
        let mut results: Vec<(u32, QueryResult)> = Vec::new();
        let mut i: usize = 0;
        while i < ids.len()
            invariant
                self.wf(),
                world.wf(),
                i <= ids@.len(),
                ids@.to_set() == self@.subscriptions.dom(),
                results@.len() == i,
                forall|k: int|
                    0 <= k < i ==> {
                        &&& (#[trigger] results@[k]).0 == ids@[k]
                        &&& self@.subscriptions.contains_key(results@[k].0)
                        &&& results@[k].1@ == query_result(
                            world@,
                            self@.subscriptions[results@[k].0].query,
                        )
                    },
            decreases ids@.len() - i,
        {
            let id: u32 = ids[i];
            assert(ids@.to_set().contains(ids@[i as int]));
            if let Some(result) = self.evaluate(id, world) {
                results.push((id, result));
            }
            i += 1;
        }
        assert(results@.map_values(|pair: (u32, QueryResult)| pair.0) =~= ids@);
        results
    }

    /// Looks at the fingerprint of a new result for a subscription. Returns
    /// the callback to call if the result is news to the subscriber, who
    /// then counts as told of it; returns nothing, and changes nothing, if
    /// it is no news or if there is no subscription under the id.
    pub fn observe(&mut self, id: u32, fingerprint: u64) -> (r: Option<&C>)
        requires
            old(self).wf(),
        ensures
            final(self).wf(),
            final(self)@ == old(self)@.after_observe(id, fingerprint),
            match r {
                Some(callback) => old(self)@.owes_call(id, fingerprint) && *callback
                    == old(self)@.subscriptions[id].callback,
                None => !old(self)@.owes_call(id, fingerprint),
            },
    {
        let news = match self.subscriptions.get(&id) {
            Some(subscription) => match subscription.last_result_hash {
                Some(last) => last != fingerprint,
                None => true,
            },
            None => false,
        };
        if !news {
            assert(old(self)@.after_observe(id, fingerprint).subscriptions =~= old(
                self,
            )@.subscriptions);
            return None;
        }
        match self.subscriptions.entry(id) {
            Entry::Occupied(entry) => {
                let subscription = entry.into_mut();
                subscription.last_result_hash = Some(fingerprint);
                Some(&subscription.callback)
            },
            Entry::Vacant(_) => None,
        }
    }
}

impl<C> Default for QuerySubscriptionManager<C> {
    fn default() -> (r: Self)
        ensures
            r.wf(),
            r@.subscriptions == Map::<u32, QuerySubscription<C>>::empty(),
            r@.next_id == 1,
    {
        Self::new()
    }
}

} // verus!
