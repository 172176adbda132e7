//! Tables keyed by identifier, and the queues of identifiers kept in them.

use vstd::prelude::*;
use std::collections::HashMap;
use vstd::std_specs::iter::IteratorSpec;

verus! {

/// Looks `k` up.
pub fn lookup<'a, V>(m: &'a HashMap<u128, V>, k: u128) -> (r: Option<&'a V>)
    ensures
        match r {
            Some(v) => m@.contains_key(k) && m@[k] == *v,
            None => !m@.contains_key(k),
        },
{
    broadcast use vstd::std_specs::hash::group_hash_axioms;

    m.get(&k)
}

/// Whether the table has an entry for `k`.
pub fn has<V>(m: &HashMap<u128, V>, k: u128) -> (r: bool)
    ensures
        r == m@.contains_key(k),
{
    broadcast use vstd::std_specs::hash::group_hash_axioms;

    m.contains_key(&k)
}

/// Takes the entry for `k` out of the table.
pub fn take<V>(m: &mut HashMap<u128, V>, k: u128) -> (r: Option<V>)
    ensures
        final(m)@ == old(m)@.remove(k),
        match r {
            Some(v) => old(m)@.contains_key(k) && old(m)@[k] == v,
            None => !old(m)@.contains_key(k),
        },
{
    broadcast use vstd::std_specs::hash::group_hash_axioms;

    m.remove(&k)
}

/// Sets the entry for `k`.
pub fn put<V>(m: &mut HashMap<u128, V>, k: u128, v: V)
    ensures
        final(m)@ == old(m)@.insert(k, v),
{
    broadcast use vstd::std_specs::hash::group_hash_axioms;

    let _ = m.insert(k, v);
}

/// The keys of the table, each once, in the table's own order.
pub fn keys_of<V>(m: &HashMap<u128, V>) -> (r: Vec<u128>)
    ensures
        r@.no_duplicates(),
        r@.to_set() == m@.dom(),
{
    broadcast use vstd::std_specs::hash::group_hash_axioms;

    let mut out: Vec<u128> = Vec::new();
    let ghost all = vstd::std_specs::hash::spec_keys_iter(m).remaining().unref();
    for k in it: m.keys()
        invariant
            it.seq().unref() == all,
            out@ == all.take(it.index() as int),
    {
        out.push(*k);
    }
    proof {
        assert(out@ =~= all);
    }
    out
}

/// The queue kept for `p`; a participant without an entry has the empty
/// queue.
pub open spec fn queue_in(m: Map<u128, Vec<u128>>, p: u128) -> Seq<u128> {
    if m.contains_key(p) {
        m[p]@
    } else {
        Seq::empty()
    }
}

/// `s` without the occurrences of `id`, the rest in its order.
pub open spec fn without(s: Seq<u128>, id: u128) -> Seq<u128>
    decreases s.len(),
{
    if s.len() == 0 {
        s
    } else {
        let rest = without(s.drop_last(), id);
        if s.last() == id {
            rest
        } else {
            rest.push(s.last())
        }
    }
}

/// What `without` keeps: every other member, once if it stood there once.
pub proof fn lemma_without(s: Seq<u128>, id: u128)
    ensures
        forall|x: u128| #[trigger] without(s, id).contains(x) <==> (s.contains(x) && x != id),
        s.no_duplicates() ==> without(s, id).no_duplicates(),
        !s.contains(id) ==> without(s, id) == s,
        without(s, id).len() <= s.len(),
    decreases s.len(),
{
    if s.len() == 0 {
    } else {
        let front = s.drop_last();
        let last = s.last();
        lemma_without(front, id);
        let rest = without(front, id);
        assert(s =~= front.push(last));
        assert forall|x: u128| #[trigger] without(s, id).contains(x) <==> (s.contains(x) && x
            != id) by {
            if s.contains(x) && x != id {
                let j = choose|j: int| 0 <= j < s.len() && s[j] == x;
                if j < front.len() {
                    assert(front[j] == x);
                    assert(front.contains(x));
                    assert(rest.contains(x));
                    let k = choose|k: int| 0 <= k < rest.len() && rest[k] == x;
                    if last != id {
                        assert(rest.push(last)[k] == x);
                    }
                } else {
                    assert(last == x);
                    assert(rest.push(last)[rest.len() as int] == x);
                }
            }
            if without(s, id).contains(x) {
                let k = choose|k: int| 0 <= k < without(s, id).len() && without(s, id)[k] == x;
                if last != id && k == rest.len() {
                    assert(s[s.len() - 1] == x);
                } else {
                    assert(rest[k] == x);
                    assert(rest.contains(x));
                    assert(front.contains(x));
                    let j = choose|j: int| 0 <= j < front.len() && front[j] == x;
                    assert(s[j] == x);
                }
            }
        }
        if s.no_duplicates() {
            assert(front.no_duplicates());
            if last != id {
                assert(!front.contains(last)) by {
                    if front.contains(last) {
                        let j = choose|j: int| 0 <= j < front.len() && front[j] == last;
                        assert(s[j] == s[s.len() - 1]);
                    }
                }
                assert(!rest.contains(last));
                assert(rest.push(last).no_duplicates());
            }
        }
        if !s.contains(id) {
            assert(!front.contains(id)) by {
                if front.contains(id) {
                    let j = choose|j: int| 0 <= j < front.len() && front[j] == id;
                    assert(s[j] == id);
                }
            }
            assert(last != id) by {
                assert(s[s.len() - 1] == last);
            }
        }
    }
}

/// A copy of the queue without `id`.
pub fn remove_all(v: &Vec<u128>, id: u128) -> (r: Vec<u128>)
    ensures
        r@ == without(v@, id),
{
    let mut out: Vec<u128> = Vec::new();
    let mut i: usize = 0;
    proof {
        assert(v@.take(0) =~= Seq::<u128>::empty());
    }
    while i < v.len()
        invariant
            i <= v@.len(),
            out@ == without(v@.take(i as int), id),
        decreases v@.len() - i,
    {
        proof {
            assert(v@.take(i + 1).drop_last() =~= v@.take(i as int));
        }
        if v[i] != id {
            out.push(v[i]);
        }
        i = i + 1;
    }
    proof {
        assert(v@.take(i as int) =~= v@);
    }
    out
}

/// Appends `id` to the queue of `p`.
pub fn enqueue(m: &mut HashMap<u128, Vec<u128>>, p: u128, id: u128)
    ensures
        queue_in(final(m)@, p) == queue_in(old(m)@, p).push(id),
        forall|q: u128| q != p ==> #[trigger] queue_in(final(m)@, q) == queue_in(old(m)@, q),
{
    let mut queue = match take(m, p) {
        Some(q) => q,
        None => Vec::new(),
    };
    queue.push(id);
    put(m, p, queue);
}

/// Takes `id` out of the queue of `p`.
pub fn dequeue(m: &mut HashMap<u128, Vec<u128>>, p: u128, id: u128)
    ensures
        queue_in(final(m)@, p) == without(queue_in(old(m)@, p), id),
        forall|q: u128| q != p ==> #[trigger] queue_in(final(m)@, q) == queue_in(old(m)@, q),
{
    match take(m, p) {
        Some(queue) => {
            let kept = remove_all(&queue, id);
            put(m, p, kept);
        },
        None => {
            proof {
                assert(without(Seq::<u128>::empty(), id) =~= Seq::<u128>::empty());
            }
        },
    }
}

} // verus!
