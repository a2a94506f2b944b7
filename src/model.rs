//! The abstract state of a keyed queue and what each operation does to it.
use vstd::prelude::*;

verus! {

/// The sequence held for `k`, or the empty sequence where `k` has no entry.
pub open spec fn queue_of<K, V>(m: Map<K, Seq<V>>, k: K) -> Seq<V> {
    if m.contains_key(k) {
        m[k]
    } else {
        Seq::empty()
    }
}

/// No key is mapped to an empty sequence.
pub open spec fn no_empty_queue<K, V>(m: Map<K, Seq<V>>) -> bool {
    forall|k: K| #[trigger] m.contains_key(k) ==> m[k].len() > 0
}

/// Stores `q` as the sequence of `k`, dropping the entry when `q` is empty.
pub open spec fn with_queue<K, V>(m: Map<K, Seq<V>>, k: K, q: Seq<V>) -> Map<K, Seq<V>> {
    if q.len() == 0 {
        m.remove(k)
    } else {
        m.insert(k, q)
    }
}

/// The state after pushing `v` at the head of the sequence of `k`.
pub open spec fn pushed_front<K, V>(m: Map<K, Seq<V>>, k: K, v: V) -> Map<K, Seq<V>> {
    m.insert(k, seq![v] + queue_of(m, k))
}

/// The state after pushing `v` at the tail of the sequence of `k`.
pub open spec fn pushed_back<K, V>(m: Map<K, Seq<V>>, k: K, v: V) -> Map<K, Seq<V>> {
    m.insert(k, queue_of(m, k).push(v))
}

/// The state after popping the head of the sequence of `k`, and the value popped.
pub open spec fn popped_front<K, V>(m: Map<K, Seq<V>>, k: K) -> (Map<K, Seq<V>>, Option<V>) {
    let q = queue_of(m, k);
    if q.len() == 0 {
        (m, None)
    } else {
        (with_queue(m, k, q.drop_first()), Some(q[0]))
    }
}

/// The state after popping the tail of the sequence of `k`, and the value popped.
pub open spec fn popped_back<K, V>(m: Map<K, Seq<V>>, k: K) -> (Map<K, Seq<V>>, Option<V>) {
    let q = queue_of(m, k);
    if q.len() == 0 {
        (m, None)
    } else {
        (with_queue(m, k, q.drop_last()), Some(q.last()))
    }
}

/// Pushes and pops leave no key mapped to an empty sequence.
pub proof fn lemma_ops_keep_no_empty<K, V>(m: Map<K, Seq<V>>, k: K, v: V)
    requires
        no_empty_queue(m),
    ensures
        no_empty_queue(pushed_front(m, k, v)),
        no_empty_queue(pushed_back(m, k, v)),
        no_empty_queue(popped_front(m, k).0),
        no_empty_queue(popped_back(m, k).0),
{
}

/// One call on a keyed queue, as a value, so that runs of calls can be reasoned about.
pub enum Op<K, V> {
    PushFront(K, V),
    PushBack(K, V),
    PopFront(K),
    PopBack(K),
}

/// The key that an operation acts on.
pub open spec fn key_of<K, V>(op: Op<K, V>) -> K {
    match op {
        Op::PushFront(k, _) => k,
        Op::PushBack(k, _) => k,
        Op::PopFront(k) => k,
        Op::PopBack(k) => k,
    }
}

/// The state after one operation, and what it returned (`None` for a push).
pub open spec fn step<K, V>(m: Map<K, Seq<V>>, op: Op<K, V>) -> (Map<K, Seq<V>>, Option<V>) {
    match op {
        Op::PushFront(k, v) => (pushed_front(m, k, v), None),
        Op::PushBack(k, v) => (pushed_back(m, k, v), None),
        Op::PopFront(k) => popped_front(m, k),
        Op::PopBack(k) => popped_back(m, k),
    }
}

/// The state after running `ops` in order from `m`.
pub open spec fn state_after<K, V>(m: Map<K, Seq<V>>, ops: Seq<Op<K, V>>) -> Map<K, Seq<V>>
    decreases ops.len(),
{
    if ops.len() == 0 {
        m
    } else {
        step(state_after(m, ops.drop_last()), ops.last()).0
    }
}

/// What the operations of `ops` on key `b` returned, in order, when run from `m`.
pub open spec fn outcomes_for<K, V>(m: Map<K, Seq<V>>, ops: Seq<Op<K, V>>, b: K) -> Seq<Option<V>>
    decreases ops.len(),
{
    if ops.len() == 0 {
        Seq::empty()
    } else {
        let before = outcomes_for(m, ops.drop_last(), b);
        if key_of(ops.last()) == b {
            before.push(step(state_after(m, ops.drop_last()), ops.last()).1)
        } else {
            before
        }
    }
}

} // verus!
