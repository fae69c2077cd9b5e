//! The event bus: who subscribed to which message type, and the messages
//! waiting to be delivered.
use crate::message::{Envelope, same_type};
use crate::scene::SceneId;
use std::any::TypeId;
use std::collections::VecDeque;
use vstd::prelude::*;

verus! {

/// Every key of the index occurs once.
pub open spec fn keys_distinct(idx: Seq<(TypeId, Seq<SceneId>)>) -> bool {
    forall|i: int, j: int|
        0 <= i < idx.len() && 0 <= j < idx.len() && i != j ==> #[trigger] idx[i].0 != #[trigger] idx[j].0
}

pub open spec fn has_key(idx: Seq<(TypeId, Seq<SceneId>)>, t: TypeId) -> bool {
    exists|i: int| 0 <= i < idx.len() && #[trigger] idx[i].0 == t
}

/// The scenes subscribed to `t`, in the order they subscribed.
pub open spec fn lookup(idx: Seq<(TypeId, Seq<SceneId>)>, t: TypeId) -> Seq<SceneId> {
    if has_key(idx, t) {
        idx[choose|i: int| 0 <= i < idx.len() && #[trigger] idx[i].0 == t].1
    } else {
        Seq::empty()
    }
}

/// With distinct keys, the entry that holds `t` is the one that `lookup` reads.
pub proof fn lemma_lookup_at(idx: Seq<(TypeId, Seq<SceneId>)>, i: int)
    requires
        keys_distinct(idx),
        0 <= i < idx.len(),
    ensures
        lookup(idx, idx[i].0) == idx[i].1,
{
    assert(has_key(idx, idx[i].0));
}

/// Holds of every scene but `id`.
pub open spec fn other_than(id: SceneId) -> spec_fn(SceneId) -> bool {
    |x: SceneId| x != id
}

/// `s` with every occurrence of `id` taken out.
pub open spec fn without(s: Seq<SceneId>, id: SceneId) -> Seq<SceneId> {
    s.filter(other_than(id))
}

/// Taking out a scene that is not there leaves the sequence as it was.
proof fn lemma_without_absent(s: Seq<SceneId>, id: SceneId)
    requires
        !s.contains(id),
    ensures
        without(s, id) == s,
    decreases s.len(),
{
    reveal_with_fuel(Seq::filter, 1);
    if s.len() > 0 {
        assert(!s.drop_last().contains(id)) by {
            if s.drop_last().contains(id) {
                let k = choose|k: int| 0 <= k < s.drop_last().len() && s.drop_last()[k] == id;
                assert(s[k] == id);
            }
        }
        lemma_without_absent(s.drop_last(), id);
        assert(s.last() == s[s.len() - 1]);
        assert(s.drop_last().push(s.last()) =~= s);
    }
}

/// Replacing the subscribers of an entry keeps the keys distinct.
pub proof fn lemma_update_keeps_keys(idx: Seq<(TypeId, Seq<SceneId>)>, i: int, subs: Seq<SceneId>)
    requires
        keys_distinct(idx),
        0 <= i < idx.len(),
    ensures
        keys_distinct(idx.update(i, (idx[i].0, subs))),
{
    let n = idx.update(i, (idx[i].0, subs));
    assert forall|a: int, b: int| 0 <= a < n.len() && 0 <= b < n.len() && a != b implies #[trigger] n[a].0
        != #[trigger] n[b].0 by {
        assert(n[a].0 == idx[a].0);
        assert(n[b].0 == idx[b].0);
    }
}

/// Copies `v` leaving out `id`.
pub fn vec_without(v: &Vec<SceneId>, id: SceneId) -> (r: Vec<SceneId>)
    ensures
        r@ == without(v@, id),
{
    let mut r: Vec<SceneId> = Vec::new();
    let ghost pred = other_than(id);
    let mut i: usize = 0;
    while i < v.len()
        invariant
            i <= v.len(),
            pred == other_than(id),
            r@ == v@.take(i as int).filter(pred),
        decreases v.len() - i,
    {
        if v[i] != id {
            r.push(v[i]);
        }
        proof {
            reveal_with_fuel(Seq::filter, 1);
            assert(v@.take(i as int + 1).drop_last() =~= v@.take(i as int));
            assert(v@.take(i as int + 1).last() == v@[i as int]);
        }
        i += 1;
    }
    assert(v@.take(v.len() as int) =~= v@);
    r
}

/// An event bus used to deliver messages.
pub struct Bus<P> {
    pub(crate) index: Vec<(TypeId, Vec<SceneId>)>,
    pub(crate) queue: VecDeque<Envelope<P>>,
}

impl<P> Bus<P> {
    /// The subscriptions: each message type with its subscribers.
    pub closed spec fn spec_index(&self) -> Seq<(TypeId, Seq<SceneId>)> {
        self.index@.map_values(|e: (TypeId, Vec<SceneId>)| (e.0, e.1@))
    }

    /// The messages waiting to be delivered, oldest first.
    pub closed spec fn spec_queue(&self) -> Seq<Envelope<P>> {
        self.queue@
    }

    /// The scenes subscribed to `t`, in the order they subscribed.
    pub open spec fn subscribers(&self, t: TypeId) -> Seq<SceneId> {
        lookup(self.spec_index(), t)
    }

    pub open spec fn wf(&self) -> bool {
        keys_distinct(self.spec_index())
    }

    pub fn new() -> (b: Self)
        ensures
            b.wf(),
            b.spec_index() == Seq::<(TypeId, Seq<SceneId>)>::empty(),
            b.spec_queue() == Seq::<Envelope<P>>::empty(),
            forall|t: TypeId| #[trigger] b.subscribers(t) == Seq::<SceneId>::empty(),
    {
        let b = Bus { index: Vec::new(), queue: VecDeque::new() };
        assert(b.spec_index() =~= Seq::<(TypeId, Seq<SceneId>)>::empty());
        b
    }

    /// Subscribe a scene to a message type.
    pub fn subscribe(&mut self, tid: TypeId, id: SceneId)
        requires
            old(self).wf(),
        ensures
            final(self).wf(),
            final(self).spec_queue() == old(self).spec_queue(),
            final(self).subscribers(tid) == old(self).subscribers(tid).push(id),
            forall|t: TypeId| t != tid ==> #[trigger] final(self).subscribers(t) == old(self).subscribers(t),
    {
        let ghost old_idx = self.spec_index();
        let mut i: usize = 0;
        while i < self.index.len()
            invariant
                i <= self.index.len(),
                self.spec_index() == old_idx,
                old_idx == old(self).spec_index(),
                self.queue@ == old(self).queue@,
                keys_distinct(old_idx),
                forall|j: int| 0 <= j < i ==> old_idx[j].0 != tid,
            decreases self.index.len() - i,
        {
            if same_type(&self.index[i].0, &tid) {
                self.index[i].1.push(id);
                proof {
                    let new_idx = self.spec_index();
                    assert(new_idx =~= old_idx.update(i as int, (old_idx[i as int].0, old_idx[i as int].1.push(id))));
                    lemma_update_keeps_keys(old_idx, i as int, old_idx[i as int].1.push(id));
                    assert(keys_distinct(new_idx));
                    lemma_lookup_at(old_idx, i as int);
                    lemma_lookup_at(new_idx, i as int);
                    assert forall|t: TypeId| t != tid implies #[trigger] lookup(new_idx, t) == lookup(old_idx, t) by {
                        if has_key(old_idx, t) {
                            let k = choose|k: int| 0 <= k < old_idx.len() && #[trigger] old_idx[k].0 == t;
                            lemma_lookup_at(old_idx, k);
                            lemma_lookup_at(new_idx, k);
                        } else {
                            assert(!has_key(new_idx, t));
                        }
                    }
                }
                return;
            }
            i += 1;
        }
        let mut subs: Vec<SceneId> = Vec::new();
        subs.push(id);
        self.index.push((tid, subs));
        proof {
            let new_idx = self.spec_index();
            assert(new_idx =~= old_idx.push((tid, seq![id])));
            assert(keys_distinct(new_idx));
            assert(!has_key(old_idx, tid));
            lemma_lookup_at(new_idx, old_idx.len() as int);
            assert(old(self).subscribers(tid) == Seq::<SceneId>::empty());
            assert(seq![id] =~= Seq::<SceneId>::empty().push(id));
            assert forall|t: TypeId| t != tid implies #[trigger] lookup(new_idx, t) == lookup(old_idx, t) by {
                if has_key(old_idx, t) {
                    let k = choose|k: int| 0 <= k < old_idx.len() && #[trigger] old_idx[k].0 == t;
                    lemma_lookup_at(old_idx, k);
                    lemma_lookup_at(new_idx, k);
                } else {
                    assert(!has_key(new_idx, t));
                }
            }
        }
    }

    /// Unsubscribe a scene from every message type.
    pub fn unsubscribe(&mut self, id: SceneId)
        requires
            old(self).wf(),
        ensures
            final(self).wf(),
            final(self).spec_queue() == old(self).spec_queue(),
            final(self).spec_index().len() == old(self).spec_index().len(),
            forall|j: int|
                0 <= j < old(self).spec_index().len() ==> (#[trigger] final(self).spec_index()[j]).0
                    == old(self).spec_index()[j].0 && final(self).spec_index()[j].1 == without(
                    old(self).spec_index()[j].1,
                    id,
                ),
            forall|t: TypeId| #[trigger] final(self).subscribers(t) == without(old(self).subscribers(t), id),
    {
        let ghost old_idx = self.spec_index();
        let mut i: usize = 0;
        while i < self.index.len()
            invariant
                i <= self.index.len(),
                old_idx == old(self).spec_index(),
                self.queue@ == old(self).queue@,
                self.spec_index().len() == old_idx.len(),
                forall|j: int|
                    0 <= j < old_idx.len() ==> (#[trigger] self.spec_index()[j]).0 == old_idx[j].0,
                forall|j: int|
                    0 <= j < i ==> (#[trigger] self.spec_index()[j]).1 == without(old_idx[j].1, id),
                forall|j: int| i <= j < old_idx.len() ==> (#[trigger] self.spec_index()[j]).1 == old_idx[j].1,
            decreases self.index.len() - i,
        {
            let ghost prev = self.index@;
            let ghost prev_si = self.spec_index();
            let kept = vec_without(&self.index[i].1, id);
            self.index[i].1 = kept;
            proof {
                assert(self.index@ == prev.update(i as int, (prev[i as int].0, kept)));
                assert forall|j: int| 0 <= j < old_idx.len() implies (#[trigger] self.spec_index()[j]) == (if j
                    == i {
                    (prev_si[j].0, kept@)
                } else {
                    prev_si[j]
                }) by {}
                assert forall|j: int| 0 <= j < old_idx.len() implies (#[trigger] self.spec_index()[j]).0
                    == old_idx[j].0 by {
                    assert(prev_si[j].0 == old_idx[j].0);
                }
                assert forall|j: int| 0 <= j <= i implies (#[trigger] self.spec_index()[j]).1 == without(
                    old_idx[j].1,
                    id,
                ) by {
                    if j < i {
                        assert(prev_si[j].1 == without(old_idx[j].1, id));
                    } else {
                        assert(prev_si[j].1 == old_idx[j].1);
                    }
                }
            }
            i += 1;
        }
        proof {
            let new_idx = self.spec_index();
            assert(keys_distinct(old_idx));
            assert forall|a: int, b: int|
                0 <= a < new_idx.len() && 0 <= b < new_idx.len() && a != b implies #[trigger] new_idx[a].0
                != #[trigger] new_idx[b].0 by {
                assert(new_idx[a].0 == old_idx[a].0);
                assert(new_idx[b].0 == old_idx[b].0);
            }
            assert forall|t: TypeId| #[trigger] lookup(new_idx, t) == without(lookup(old_idx, t), id) by {
                if has_key(old_idx, t) {
                    let k = choose|k: int| 0 <= k < old_idx.len() && #[trigger] old_idx[k].0 == t;
                    lemma_lookup_at(old_idx, k);
                    lemma_lookup_at(new_idx, k);
                } else {
                    assert(!has_key(new_idx, t)) by {
                        if has_key(new_idx, t) {
                            let k = choose|k: int| 0 <= k < new_idx.len() && #[trigger] new_idx[k].0 == t;
                            assert(old_idx[k].0 == t);
                        }
                    }
                    reveal_with_fuel(Seq::filter, 1);
                }
            }
        }
    }

    /// Push a message to the back of the queue.
    pub fn enqueue(&mut self, env: Envelope<P>)
        ensures
            final(self).spec_index() == old(self).spec_index(),
            final(self).spec_queue() == old(self).spec_queue().push(env),
    {
        self.queue.push_back(env);
    }

    /// Takes the oldest message out of the queue.
    pub fn pop(&mut self) -> (r: Option<Envelope<P>>)
        ensures
            final(self).spec_index() == old(self).spec_index(),
            old(self).spec_queue().len() == 0 ==> r is None && final(self).spec_queue() == old(self).spec_queue(),
            old(self).spec_queue().len() > 0 ==> r == Some(old(self).spec_queue()[0])
                && final(self).spec_queue() == old(self).spec_queue().drop_first(),
    {
        let r = self.queue.pop_front();
        proof {
            if old(self).spec_queue().len() > 0 {
                assert(self.queue@ =~= old(self).spec_queue().drop_first());
            }
        }
        r
    }

    /// The subscribers of `tid`, copied out.
    pub fn subscribers_of(&self, tid: &TypeId) -> (r: Vec<SceneId>)
        requires
            self.wf(),
        ensures
            r@ == self.subscribers(*tid),
    {
        let mut i: usize = 0;
        while i < self.index.len()
            invariant
                i <= self.index.len(),
                self.wf(),
                forall|j: int| 0 <= j < i ==> self.spec_index()[j].0 != *tid,
            decreases self.index.len() - i,
        {
            if same_type(&self.index[i].0, tid) {
                proof {
                    lemma_lookup_at(self.spec_index(), i as int);
                }
                let mut r: Vec<SceneId> = Vec::new();
                let mut k: usize = 0;
                let n = self.index[i].1.len();
                while k < n
                    invariant
                        k <= n,
                        i < self.index.len(),
                        n == self.index@[i as int].1@.len(),
                        r@ == self.index@[i as int].1@.take(k as int),
                    decreases n - k,
                {
                    r.push(self.index[i].1[k]);
                    k += 1;
                    assert(r@ =~= self.index@[i as int].1@.take(k as int));
                }
                assert(r@ =~= self.index@[i as int].1@);
                return r;
            }
            i += 1;
        }
        proof {
            assert(!has_key(self.spec_index(), *tid));
        }
        Vec::new()
    }
}

/// Unsubscribing a scene undoes subscribing it: a scene without any
/// subscription that subscribes to one message type (`subscribed`, as
/// `Bus::subscribe` leaves it) and is then unsubscribed (`after`, as
/// `Bus::unsubscribe` leaves it) leaves every message type with the
/// subscribers it had before.
pub proof fn lemma_unsubscribe_undoes_subscribe<P>(
    before: Bus<P>,
    subscribed: Bus<P>,
    after: Bus<P>,
    tid: TypeId,
    id: SceneId,
)
    requires
        before.wf(),
        forall|t: TypeId| !(#[trigger] before.subscribers(t)).contains(id),
        subscribed.subscribers(tid) == before.subscribers(tid).push(id),
        forall|t: TypeId| t != tid ==> #[trigger] subscribed.subscribers(t) == before.subscribers(t),
        forall|t: TypeId| #[trigger] after.subscribers(t) == without(subscribed.subscribers(t), id),
    ensures
        forall|t: TypeId| #[trigger] after.subscribers(t) == before.subscribers(t),
{
    assert forall|t: TypeId| #[trigger] after.subscribers(t) == before.subscribers(t) by {
        let b = before.subscribers(t);
        lemma_without_absent(b, id);
        if t == tid {
            reveal_with_fuel(Seq::filter, 1);
            assert(b.push(id).drop_last() =~= b);
            assert(b.push(id).last() == id);
        }
    }
}

} // verus!
