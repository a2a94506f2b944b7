//! The executable keyed queue, over a `HashMap` of `VecDeque`s.
use std::collections::hash_map::Entry;
use std::collections::{HashMap, VecDeque};
use std::hash::Hash;
use vstd::prelude::*;
use vstd::std_specs::hash::obeys_key_model;

use crate::model::{
    lemma_ops_keep_no_empty, no_empty_queue, popped_back, popped_front, pushed_back, pushed_front,
    queue_of,
};

verus! {

/// Keys whose hashing and equality the map can rely on, and whose clones
/// are equal to the key cloned.
pub open spec fn usable_key<K: Clone>() -> bool {
    &&& obeys_key_model::<K>()
    &&& forall|a: K, b: K| #[trigger] cloned(a, b) ==> a == b
}

/// A map from keys to double-ended queues; a key has an entry exactly while
/// its queue holds at least one value.
#[derive(Debug, Clone)]
pub struct KeyedQueue<K, V> {
    inner: HashMap<K, VecDeque<V>>,
}

impl<K, V> View for KeyedQueue<K, V> {
    type V = Map<K, Seq<V>>;

    closed spec fn view(&self) -> Map<K, Seq<V>> {
        self.inner@.map_values(|q: VecDeque<V>| q@)
    }
}

impl<K, V> KeyedQueue<K, V> {
    /// No entry holds an empty queue.
    pub open spec fn wf(&self) -> bool {
        no_empty_queue(self@)
    }

    /// An empty structure, with no entries.
    pub fn new() -> (r: Self)
        ensures
            r@ == Map::<K, Seq<V>>::empty(),
            r.wf(),
    {
        let r = KeyedQueue { inner: HashMap::new() };
        assert(r@ =~= Map::<K, Seq<V>>::empty());
        r
    }
}

impl<K, V> Default for KeyedQueue<K, V> {
    fn default() -> (r: Self)
        ensures
            r@ == Map::<K, Seq<V>>::empty(),
            r.wf(),
    {
        Self::new()
    }
}

/// Which end of a queue a pop takes from.
enum PopEnd {
    Front,
    Back,
}

impl<K: Clone + Hash + Eq, V> KeyedQueue<K, V> {
    /// Pushes `value` at the head of the queue of `key`, creating the entry if needed.
    pub fn push_front(&mut self, key: &K, value: V)
        requires
            usable_key::<K>(),
            old(self).wf(),
        ensures
            final(self)@ == pushed_front(old(self)@, *key, value),
            final(self)@[*key] == seq![value] + queue_of(old(self)@, *key),
            final(self).wf(),
    {
        let queue = self.get_or_create_queue_mut(key);
        queue.push_front(value);
    }

    /// Pushes `value` at the tail of the queue of `key`, creating the entry if needed.
    pub fn push_back(&mut self, key: &K, value: V)
        requires
            usable_key::<K>(),
            old(self).wf(),
        ensures
            final(self)@ == pushed_back(old(self)@, *key, value),
            final(self)@[*key] == queue_of(old(self)@, *key).push(value),
            final(self).wf(),
    {
        let queue = self.get_or_create_queue_mut(key);
        queue.push_back(value);
    }

    /// The queue of `key`, inserted empty when the key has no entry yet; one
    /// lookup finds or makes it.
    fn get_or_create_queue_mut(&mut self, key: &K) -> (queue: &mut VecDeque<V>)
        requires
            usable_key::<K>(),
        ensures
            queue@ == queue_of(old(self)@, *key),
            final(self)@ == old(self)@.insert(*key, final(queue)@),
    {
        let k = key.clone();
        assert(cloned(*key, k));
        self.inner.entry(k).or_insert(VecDeque::new())
    }

    /// Removes and returns the head of the queue of `key`; `None` when the
    /// key has no entry. The entry goes when its last value does.
    pub fn pop_front(&mut self, key: &K) -> (r: Option<V>)
        requires
            usable_key::<K>(),
            old(self).wf(),
        ensures
            (final(self)@, r) == popped_front(old(self)@, *key),
            !old(self)@.contains_key(*key) ==> r is None && final(self)@ == old(self)@,
            old(self)@.contains_key(*key) ==> r == Some(old(self)@[*key].first()),
            old(self)@.contains_key(*key) && old(self)@[*key].len() == 1
                ==> !final(self)@.contains_key(*key),
            final(self).wf(),
    {
        self.pop(key, PopEnd::Front)
    }

    /// Removes and returns the tail of the queue of `key`; `None` when the
    /// key has no entry. The entry goes when its last value does.
    pub fn pop_back(&mut self, key: &K) -> (r: Option<V>)
        requires
            usable_key::<K>(),
            old(self).wf(),
        ensures
            (final(self)@, r) == popped_back(old(self)@, *key),
            !old(self)@.contains_key(*key) ==> r is None && final(self)@ == old(self)@,
            old(self)@.contains_key(*key) ==> r == Some(old(self)@[*key].last()),
            old(self)@.contains_key(*key) && old(self)@[*key].len() == 1
                ==> !final(self)@.contains_key(*key),
            final(self).wf(),
    {
        self.pop(key, PopEnd::Back)
    }

    fn pop(&mut self, key: &K, end: PopEnd) -> (r: Option<V>)
        requires
            usable_key::<K>(),
            old(self).wf(),
        ensures
            (final(self)@, r) == (match end {
                PopEnd::Front => popped_front(old(self)@, *key),
                PopEnd::Back => popped_back(old(self)@, *key),
            }),
            final(self).wf(),
    {
        let k = key.clone();
        assert(cloned(*key, k));
        proof {
            lemma_ops_keep_no_empty(self@, *key, arbitrary());
        }
        match self.inner.entry(k) {
            Entry::Occupied(mut occupied) => {
                let queue = occupied.get_mut();
                let value = match end {
                    PopEnd::Front => queue.pop_front(),
                    PopEnd::Back => queue.pop_back(),
                };
                if queue.len() == 0 {
                    occupied.remove();
                }
                value
            },
            Entry::Vacant(_) => None,
        }
    }
}

} // verus!
