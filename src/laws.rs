//! Laws of keyed queues, stated over runs of operations on the abstract state.
use vstd::prelude::*;

use crate::model::{
    key_of, lemma_ops_keep_no_empty, no_empty_queue, outcomes_for, popped_back, popped_front,
    queue_of, state_after, step, Op,
};

verus! {

/// Pushes of each value of `vs` at the tail of the queue of `k`, in order.
pub open spec fn pushes_back<K, V>(k: K, vs: Seq<V>) -> Seq<Op<K, V>> {
    vs.map_values(|v: V| Op::PushBack(k, v))
}

/// Pushes of each value of `vs` at the head of the queue of `k`, in order.
pub open spec fn pushes_front<K, V>(k: K, vs: Seq<V>) -> Seq<Op<K, V>> {
    vs.map_values(|v: V| Op::PushFront(k, v))
}

/// `n` pops from the head of the queue of `k`.
pub open spec fn pops_front<K, V>(k: K, n: nat) -> Seq<Op<K, V>> {
    Seq::new(n, |i: int| Op::PopFront(k))
}

/// Each value wrapped as a successful pop.
pub open spec fn as_popped<V>(vs: Seq<V>) -> Seq<Option<V>> {
    vs.map_values(|v: V| Some(v))
}

/// The operations of `ops` that act on key `b`, in order.
pub open spec fn ops_on<K, V>(ops: Seq<Op<K, V>>, b: K) -> Seq<Op<K, V>>
    decreases ops.len(),
{
    if ops.len() == 0 {
        ops
    } else if key_of(ops.last()) == b {
        ops_on(ops.drop_last(), b).push(ops.last())
    } else {
        ops_on(ops.drop_last(), b)
    }
}

/// How many pushes on key `k` there are in `ops`.
pub open spec fn push_count<K, V>(ops: Seq<Op<K, V>>, k: K) -> nat
    decreases ops.len(),
{
    if ops.len() == 0 {
        0
    } else {
        push_count(ops.drop_last(), k) + match ops.last() {
            Op::PushFront(k2, _) => if k2 == k { 1nat } else { 0nat },
            Op::PushBack(k2, _) => if k2 == k { 1nat } else { 0nat },
            _ => 0nat,
        }
    }
}

/// How many of the outcomes are values rather than absence.
pub open spec fn success_count<V>(outs: Seq<Option<V>>) -> nat
    decreases outs.len(),
{
    if outs.len() == 0 {
        0
    } else {
        success_count(outs.drop_last()) + if outs.last() is Some { 1nat } else { 0nat }
    }
}

proof fn lemma_run_keeps_no_empty<K, V>(m: Map<K, Seq<V>>, ops: Seq<Op<K, V>>)
    requires
        no_empty_queue(m),
    ensures
        no_empty_queue(state_after(m, ops)),
    decreases ops.len(),
{
    if ops.len() > 0 {
        let before = state_after(m, ops.drop_last());
        lemma_run_keeps_no_empty(m, ops.drop_last());
        match ops.last() {
            Op::PushFront(k, v) => lemma_ops_keep_no_empty(before, k, v),
            Op::PushBack(k, v) => lemma_ops_keep_no_empty(before, k, v),
            Op::PopFront(k) => lemma_ops_keep_no_empty(before, k, arbitrary()),
            Op::PopBack(k) => lemma_ops_keep_no_empty(before, k, arbitrary()),
        }
    }
}

proof fn lemma_step_other_key<K, V>(m: Map<K, Seq<V>>, op: Op<K, V>, b: K)
    requires
        key_of(op) != b,
    ensures
        step(m, op).0.get(b) == m.get(b),
{
}

proof fn lemma_step_same_key<K, V>(m1: Map<K, Seq<V>>, m2: Map<K, Seq<V>>, op: Op<K, V>)
    requires
        m1.get(key_of(op)) == m2.get(key_of(op)),
    ensures
        step(m1, op).0.get(key_of(op)) == step(m2, op).0.get(key_of(op)),
        step(m1, op).1 == step(m2, op).1,
{
    assert(queue_of(m1, key_of(op)) == queue_of(m2, key_of(op)));
}

/// Key independence: what the operations on key `b` return, and the entry
/// of `b` afterwards, are the same whether or not the operations on other
/// keys are run among them.
pub proof fn law_key_independence<K, V>(m: Map<K, Seq<V>>, ops: Seq<Op<K, V>>, b: K)
    ensures
        outcomes_for(m, ops, b) == outcomes_for(m, ops_on(ops, b), b),
        state_after(m, ops).get(b) == state_after(m, ops_on(ops, b)).get(b),
    decreases ops.len(),
{
    if ops.len() > 0 {
        let rest = ops.drop_last();
        let op = ops.last();
        law_key_independence(m, rest, b);
        let filtered = ops_on(ops, b);
        if key_of(op) == b {
            assert(filtered.drop_last() =~= ops_on(rest, b));
            lemma_step_same_key(state_after(m, rest), state_after(m, ops_on(rest, b)), op);
        } else {
            lemma_step_other_key(state_after(m, rest), op, b);
        }
    }
}

proof fn lemma_pushes_back<K, V>(m: Map<K, Seq<V>>, k: K, vs: Seq<V>)
    ensures
        queue_of(state_after(m, pushes_back(k, vs)), k) == queue_of(m, k) + vs,
    decreases vs.len(),
{
    if vs.len() > 0 {
        assert(pushes_back(k, vs).drop_last() =~= pushes_back(k, vs.drop_last()));
        lemma_pushes_back(m, k, vs.drop_last());
        assert(queue_of(m, k) + vs =~= (queue_of(m, k) + vs.drop_last()).push(vs.last()));
    } else {
        assert(queue_of(m, k) + vs =~= queue_of(m, k));
    }
}

proof fn lemma_pushes_front<K, V>(m: Map<K, Seq<V>>, k: K, vs: Seq<V>)
    ensures
        queue_of(state_after(m, pushes_front(k, vs)), k) == vs.reverse() + queue_of(m, k),
    decreases vs.len(),
{
    if vs.len() > 0 {
        assert(pushes_front(k, vs).drop_last() =~= pushes_front(k, vs.drop_last()));
        lemma_pushes_front(m, k, vs.drop_last());
        assert(vs.reverse() + queue_of(m, k) =~= seq![vs.last()] + (vs.drop_last().reverse()
            + queue_of(m, k)));
    } else {
        assert(vs.reverse() + queue_of(m, k) =~= queue_of(m, k));
    }
}

proof fn lemma_pops_front<K, V>(m: Map<K, Seq<V>>, k: K, n: nat)
    requires
        n <= queue_of(m, k).len(),
    ensures
        queue_of(state_after(m, pops_front(k, n)), k) == queue_of(m, k).skip(n as int),
        outcomes_for(m, pops_front(k, n), k) == as_popped(queue_of(m, k).take(n as int)),
    decreases n,
{
    let q = queue_of(m, k);
    if n > 0 {
        let ops = pops_front::<K, V>(k, n);
        assert(ops.drop_last() =~= pops_front(k, (n - 1) as nat));
        lemma_pops_front(m, k, (n - 1) as nat);
        let before = state_after(m, ops.drop_last());
        assert(queue_of(before, k) == q.skip(n - 1));
        assert(queue_of(before, k).drop_first() =~= q.skip(n as int));
        assert(as_popped(q.take(n as int)) =~= as_popped(q.take(n - 1)).push(Some(q[n - 1])));
    } else {
        assert(q.skip(0) =~= q);
        assert(as_popped(q.take(0)) =~= Seq::<Option<V>>::empty());
    }
}

/// First in, first out: values pushed at the tail of a key that has no
/// entry come back in the same order from pops at the head, after which the
/// key has no entry.
pub proof fn law_fifo<K, V>(m: Map<K, Seq<V>>, k: K, vs: Seq<V>)
    requires
        !m.contains_key(k),
    ensures
        ({
            let filled = state_after(m, pushes_back(k, vs));
            &&& outcomes_for(filled, pops_front(k, vs.len()), k) == as_popped(vs)
            &&& !state_after(filled, pops_front(k, vs.len())).contains_key(k)
        }),
{
    let filled = state_after(m, pushes_back(k, vs));
    lemma_pushes_back(m, k, vs);
    assert(queue_of(filled, k) =~= vs);
    lemma_pops_front(filled, k, vs.len());
    assert(vs.take(vs.len() as int) =~= vs);
    lemma_drain_removes(filled, k, vs.len());
}

/// Last in, first out: values pushed at the head of a key that has no entry
/// come back in reverse order from pops at the head, after which the key has
/// no entry.
pub proof fn law_lifo<K, V>(m: Map<K, Seq<V>>, k: K, vs: Seq<V>)
    requires
        !m.contains_key(k),
    ensures
        ({
            let filled = state_after(m, pushes_front(k, vs));
            &&& outcomes_for(filled, pops_front(k, vs.len()), k) == as_popped(vs.reverse())
            &&& !state_after(filled, pops_front(k, vs.len())).contains_key(k)
        }),
{
    let filled = state_after(m, pushes_front(k, vs));
    lemma_pushes_front(m, k, vs);
    assert(queue_of(filled, k) =~= vs.reverse());
    lemma_pops_front(filled, k, vs.len());
    assert(vs.reverse().take(vs.len() as int) =~= vs.reverse());
    lemma_drain_removes(filled, k, vs.len());
}

/// Auto-prune: once a run of operations leaves the queue of `k` empty, `k`
/// has no entry, and a further pop at either end returns nothing and changes
/// nothing.
pub proof fn law_auto_prune<K, V>(m: Map<K, Seq<V>>, ops: Seq<Op<K, V>>, k: K)
    requires
        no_empty_queue(m),
        queue_of(state_after(m, ops), k).len() == 0,
    ensures
        !state_after(m, ops).contains_key(k),
        popped_front(state_after(m, ops), k) == (state_after(m, ops), None::<V>),
        popped_back(state_after(m, ops), k) == (state_after(m, ops), None::<V>),
{
    lemma_run_keeps_no_empty(m, ops);
}

proof fn lemma_drain_removes<K, V>(m: Map<K, Seq<V>>, k: K, n: nat)
    requires
        n == queue_of(m, k).len(),
    ensures
        n > 0 || !m.contains_key(k) ==> !state_after(m, pops_front(k, n)).contains_key(k),
{
    let ops = pops_front::<K, V>(k, n);
    if n > 0 {
        assert(ops.drop_last() =~= pops_front(k, (n - 1) as nat));
        lemma_pops_front(m, k, (n - 1) as nat);
    }
}

/// Absence: in a structure that starts empty, a key on which no push was
/// made has no entry, and a pop of it at either end returns nothing.
pub proof fn law_unknown_key<K, V>(ops: Seq<Op<K, V>>, k: K)
    requires
        forall|i: int| 0 <= i < ops.len() ==> key_of(#[trigger] ops[i]) != k,
    ensures
        !state_after(Map::<K, Seq<V>>::empty(), ops).contains_key(k),
        popped_front(state_after(Map::<K, Seq<V>>::empty(), ops), k).1 is None,
        popped_back(state_after(Map::<K, Seq<V>>::empty(), ops), k).1 is None,
{
    law_key_independence(Map::<K, Seq<V>>::empty(), ops, k);
    lemma_ops_on_none(ops, k);
}

proof fn lemma_ops_on_none<K, V>(ops: Seq<Op<K, V>>, k: K)
    requires
        forall|i: int| 0 <= i < ops.len() ==> key_of(#[trigger] ops[i]) != k,
    ensures
        ops_on(ops, k).len() == 0,
    decreases ops.len(),
{
    if ops.len() > 0 {
        assert(key_of(ops[ops.len() - 1]) != k);
        lemma_ops_on_none(ops.drop_last(), k);
    }
}

proof fn lemma_counts<K, V>(m: Map<K, Seq<V>>, ops: Seq<Op<K, V>>, k: K)
    ensures
        success_count(outcomes_for(m, ops, k)) + queue_of(state_after(m, ops), k).len()
            == queue_of(m, k).len() + push_count(ops, k),
    decreases ops.len(),
{
    if ops.len() > 0 {
        let rest = ops.drop_last();
        lemma_counts(m, rest, k);
        if key_of(ops.last()) != k {
            lemma_step_other_key(state_after(m, rest), ops.last(), k);
            assert(queue_of(state_after(m, ops), k) == queue_of(state_after(m, rest), k));
        } else {
            let outs = outcomes_for(m, ops, k);
            assert(outs.drop_last() == outcomes_for(m, rest, k));
        }
    }
}

/// Count conservation: starting from an empty structure, the pops on a key
/// that return a value never outnumber the pushes on it, and match them
/// exactly once its queue is drained.
pub proof fn law_count_conservation<K, V>(ops: Seq<Op<K, V>>, k: K)
    ensures
        ({
            let start = Map::<K, Seq<V>>::empty();
            let popped = success_count(outcomes_for(start, ops, k));
            &&& popped + queue_of(state_after(start, ops), k).len() == push_count(ops, k)
            &&& popped <= push_count(ops, k)
            &&& queue_of(state_after(start, ops), k).len() == 0 ==> popped == push_count(ops, k)
        }),
{
    lemma_counts(Map::<K, Seq<V>>::empty(), ops, k);
}

} // verus!
