//! The central app manager: the registered scenes, the stack of scenes on
//! screen, and the event bus that delivers messages to subscribers.
use crate::bus::{Bus, keys_distinct, lookup, without};
use crate::message::Envelope;
use crate::outbox::Outbox;
use crate::command::Command;
use crate::scene::{Action, KeyCode, KeyFlow, KeyInput, Registrar, Scene, SceneId};
use std::any::TypeId;
use std::marker::PhantomData;
use vstd::prelude::*;

verus! {

/// In a sequence without duplicates, each element is found where it stands.
pub proof fn lemma_index_of_unique(ids: Seq<SceneId>, i: int)
    requires
        ids.no_duplicates(),
        0 <= i < ids.len(),
    ensures
        ids.index_of(ids[i]) == i,
{
    assert(0 <= i < ids.len() && ids[i] == ids[i]);
    let k = ids.index_of(ids[i]);
    assert(0 <= k < ids.len() && ids[k] == ids[i]);
}

/// The ids of a list of scenes.
pub open spec fn ids_of<S>(sc: Seq<(SceneId, S)>) -> Seq<SceneId> {
    sc.map_values(|e: (SceneId, S)| e.0)
}

/// A list of scenes, by id.
pub open spec fn scene_map<S>(sc: Seq<(SceneId, S)>) -> Map<SceneId, S> {
    Map::new(|k: SceneId| ids_of(sc).contains(k), |k: SceneId| sc[ids_of(sc).index_of(k)].1)
}

/// Taking one entry out of a list of scenes leaves the others as they were.
pub proof fn lemma_remove_keeps<S>(sc: Seq<(SceneId, S)>, i: int)
    requires
        ids_of(sc).no_duplicates(),
        0 <= i < sc.len(),
    ensures
        ids_of(sc.remove(i)) == ids_of(sc).remove(i),
        ids_of(sc.remove(i)).no_duplicates(),
        forall|k: SceneId| #[trigger] ids_of(sc.remove(i)).contains(k) <==> (ids_of(sc).contains(k) && k != sc[i].0),
        forall|k: SceneId| #[trigger] ids_of(sc.remove(i)).contains(k) ==> scene_map(sc.remove(i))[k] == scene_map(sc)[k],
{
    let ids = ids_of(sc);
    let r = sc.remove(i);
    let rids = ids_of(r);
    assert(rids =~= ids.remove(i));
    assert forall|a: int, b: int| 0 <= a < rids.len() && 0 <= b < rids.len() && a != b implies rids[a] != rids[b] by {
        let a2 = if a < i { a } else { a + 1 };
        let b2 = if b < i { b } else { b + 1 };
        assert(rids[a] == ids[a2]);
        assert(rids[b] == ids[b2]);
    }
    assert forall|k: SceneId| #[trigger] rids.contains(k) <==> (ids.contains(k) && k != sc[i].0) by {
        if rids.contains(k) {
            let a = choose|a: int| 0 <= a < rids.len() && rids[a] == k;
            let a2 = if a < i { a } else { a + 1 };
            assert(ids[a2] == k);
            assert(ids[i] == sc[i].0);
        }
        if ids.contains(k) && k != sc[i].0 {
            let a = choose|a: int| 0 <= a < ids.len() && ids[a] == k;
            assert(a != i);
            let a2 = if a < i { a } else { a - 1 };
            assert(rids[a2] == k);
        }
    }
    assert forall|k: SceneId| #[trigger] rids.contains(k) implies scene_map(r)[k] == scene_map(sc)[k] by {
        let a = choose|a: int| 0 <= a < rids.len() && rids[a] == k;
        lemma_index_of_unique(rids, a);
        let a2 = if a < i { a } else { a + 1 };
        assert(ids[a2] == k);
        lemma_index_of_unique(ids, a2);
        assert(r[a] == sc[a2]);
    }
}

/// How often `t` occurs in `ts`.
pub open spec fn count_of(ts: Seq<TypeId>, t: TypeId) -> nat {
    ts.filter(|x: TypeId| x == t).len()
}

/// The scene `id`, `n` times.
pub open spec fn repeat_id(id: SceneId, n: nat) -> Seq<SceneId> {
    Seq::new(n, |i: int| id)
}

/// One more type at the end counts once more for that type.
proof fn lemma_count_push(ts: Seq<TypeId>, x: TypeId, t: TypeId)
    ensures
        count_of(ts.push(x), t) == count_of(ts, t) + (if x == t { 1nat } else { 0nat }),
{
    reveal_with_fuel(Seq::filter, 1);
    assert(ts.push(x).drop_last() =~= ts);
}

/// Replacing the scene of one entry, under the same id, replaces it in the
/// map by id and leaves the ids as they were.
pub proof fn lemma_update_entry<S>(sc: Seq<(SceneId, S)>, i: int, v: S)
    requires
        ids_of(sc).no_duplicates(),
        0 <= i < sc.len(),
    ensures
        ids_of(sc.update(i, (sc[i].0, v))) == ids_of(sc),
        scene_map(sc.update(i, (sc[i].0, v))) == scene_map(sc).insert(sc[i].0, v),
{
    let u = sc.update(i, (sc[i].0, v));
    assert(ids_of(u) =~= ids_of(sc));
    lemma_index_of_unique(ids_of(sc), i);
    assert forall|k: SceneId| #[trigger] scene_map(u).contains_key(k) implies scene_map(u)[k] == scene_map(sc).insert(sc[i].0, v)[k] by {
        let q = ids_of(sc).index_of(k);
        assert(ids_of(sc).contains(k));
        assert(0 <= q < ids_of(sc).len() && ids_of(sc)[q] == k);
        if q == i {
            assert(k == sc[i].0);
        } else {
            assert(k != sc[i].0) by {
                lemma_index_of_unique(ids_of(sc), q);
            }
        }
    }
    assert(scene_map(u).dom() =~= scene_map(sc).insert(sc[i].0, v).dom()) by {
        assert(ids_of(sc).contains(sc[i].0)) by {
            assert(ids_of(sc)[i] == sc[i].0);
        }
    }
    assert(scene_map(u) =~= scene_map(sc).insert(sc[i].0, v));
}

/// A list of distinct scenes, all of them among `ids`, is no longer than `ids`.
proof fn lemma_distinct_within(s: Seq<SceneId>, ids: Seq<SceneId>)
    requires
        s.no_duplicates(),
        forall|k: int| 0 <= k < s.len() ==> ids.contains(#[trigger] s[k]),
    ensures
        s.len() <= ids.len(),
{
    broadcast use vstd::seq_lib::seq_to_set_is_finite;
    s.unique_seq_to_set();
    ids.lemma_cardinality_of_set();
    assert(s.to_set().subset_of(ids.to_set())) by {
        assert forall|x: SceneId| #[trigger] s.to_set().contains(x) implies ids.to_set().contains(x) by {
            let k = choose|k: int| 0 <= k < s.len() && s[k] == x;
            assert(ids.contains(s[k]));
        }
    }
    vstd::set_lib::lemma_len_subset(s.to_set(), ids.to_set());
}

/// Whether `id` is in `v`.
fn contains_id(v: &Vec<SceneId>, id: SceneId) -> (r: bool)
    ensures
        r == v@.contains(id),
{
    let mut i: usize = 0;
    while i < v.len()
        invariant
            i <= v.len(),
            forall|k: int| 0 <= k < i ==> v@[k] != id,
        decreases v.len() - i,
    {
        if v[i] == id {
            assert(v@[i as int] == id);
            return true;
        }
        i += 1;
    }
    false
}

/// Every entry of `part` stands in `whole` with the same value.
pub open spec fn kept_in<K, V>(part: Map<K, V>, whole: Map<K, V>) -> bool {
    forall|k: K| #[trigger] part.contains_key(k) ==> whole.contains_key(k) && part[k] == whole[k]
}

/// Holds of the scenes in `d`.
pub open spec fn member_of(d: Set<SceneId>) -> spec_fn(SceneId) -> bool {
    |s: SceneId| d.contains(s)
}

/// Filtering by two predicates that agree on the elements gives the same.
pub proof fn lemma_filter_ext(s: Seq<SceneId>, p: spec_fn(SceneId) -> bool, q: spec_fn(SceneId) -> bool)
    requires
        forall|k: int| 0 <= k < s.len() ==> p(#[trigger] s[k]) == q(s[k]),
    ensures
        s.filter(p) == s.filter(q),
    decreases s.len(),
{
    reveal_with_fuel(Seq::filter, 1);
    if s.len() > 0 {
        assert forall|k: int| 0 <= k < s.drop_last().len() implies p(#[trigger] s.drop_last()[k]) == q(
            s.drop_last()[k],
        ) by {
            assert(s.drop_last()[k] == s[k]);
        }
        lemma_filter_ext(s.drop_last(), p, q);
        assert(s.last() == s[s.len() - 1]);
    }
}

/// Filtering twice is filtering by both predicates at once.
pub proof fn lemma_filter_filter(s: Seq<SceneId>, p: spec_fn(SceneId) -> bool, q: spec_fn(SceneId) -> bool)
    ensures
        s.filter(p).filter(q) == s.filter(|x: SceneId| p(x) && q(x)),
    decreases s.len(),
{
    reveal_with_fuel(Seq::filter, 1);
    if s.len() > 0 {
        lemma_filter_filter(s.drop_last(), p, q);
        let sub = s.drop_last().filter(p);
        if p(s.last()) {
            assert(s.filter(p) == sub.push(s.last()));
            assert(sub.push(s.last()).drop_last() =~= sub);
        }
    }
}

/// Every step of `p` goes from a scene to one of its children in `m`.
pub open spec fn path_in(m: Map<SceneId, Seq<SceneId>>, p: Seq<SceneId>) -> bool {
    forall|j: int| 0 <= j < p.len() - 1 ==> m.contains_key(#[trigger] p[j]) && m[p[j]].contains(p[j + 1])
}

/// `to` is `from` or lies below it, following the children in `m`.
pub open spec fn reaches(m: Map<SceneId, Seq<SceneId>>, from: SceneId, to: SceneId) -> bool {
    exists|p: Seq<SceneId>| p.len() > 0 && p[0] == from && p.last() == to && #[trigger] path_in(m, p)
}

pub proof fn lemma_reaches_self(m: Map<SceneId, Seq<SceneId>>, a: SceneId)
    ensures
        reaches(m, a, a),
{
    let p = seq![a];
    assert(path_in(m, p));
}

/// A path below a child, in a part of the children map, leads from the parent too.
pub proof fn lemma_reaches_through_child(
    m0: Map<SceneId, Seq<SceneId>>,
    m1: Map<SceneId, Seq<SceneId>>,
    a: SceneId,
    b: SceneId,
    c: SceneId,
)
    requires
        kept_in(m1, m0),
        m0.contains_key(a),
        m0[a].contains(b),
        reaches(m1, b, c),
    ensures
        reaches(m0, a, c),
{
    let p = choose|p: Seq<SceneId>| p.len() > 0 && p[0] == b && p.last() == c && #[trigger] path_in(m1, p);
    let q = seq![a] + p;
    assert forall|j: int| 0 <= j < q.len() - 1 implies m0.contains_key(#[trigger] q[j]) && m0[q[j]].contains(
        q[j + 1],
    ) by {
        if j == 0 {
            assert(q[0] == a);
            assert(q[1] == p[0]);
        } else {
            assert(q[j] == p[j - 1]);
            assert(q[j + 1] == p[j]);
            assert(m1.contains_key(p[j - 1]) && m1[p[j - 1]].contains(p[j - 1 + 1]));
            assert(m1.contains_key(p[j - 1]));
        }
    }
    assert(path_in(m0, q));
    assert(q.last() == p.last());
}


/// Control-C quits the app.
pub open spec fn is_quit_key(key: KeyInput) -> bool {
    key.ctrl && key.code == KeyCode::Char('c')
}

/// What the application still has to do after an action: the app manager
/// applies the rest itself.
pub enum Effect<F> {
    Nothing,
    /// Run this command as a one-shot job.
    RunJob(Command),
    /// Run this spawner with the app manager.
    Spawn(F),
}

/// How a key press ended.
pub enum InputOutcome<F> {
    /// No scene handled the key: nothing more to do.
    Done,
    /// A scene handled the key: perform the effect, then deliver the bus messages.
    Handled(Effect<F>),
}

/// The central app manager, handles scenes, input and has a central bus
/// system to deliver messages to subscribers.
pub struct App<C, P, F, S> {
    scenes: Vec<(SceneId, S)>,
    order: Vec<SceneId>,
    bus: Bus<P>,
    ctx: C,
    running: bool,
    next_id: u64,
    spawner: PhantomData<F>,
}

impl<C, P, F, S: Scene<C, P, F>> App<C, P, F, S> {
    /// The registered scenes' ids, in registration order.
    pub closed spec fn spec_ids(&self) -> Seq<SceneId> {
        ids_of(self.scenes@)
    }

    pub open spec fn is_registered(&self, id: SceneId) -> bool {
        self.spec_ids().contains(id)
    }

    /// The registered scenes by id.
    pub closed spec fn spec_scenes(&self) -> Map<SceneId, S> {
        scene_map(self.scenes@)
    }

    /// The stack of scenes on screen, bottom first.
    pub closed spec fn spec_order(&self) -> Seq<SceneId> {
        self.order@
    }

    pub closed spec fn spec_bus(&self) -> Bus<P> {
        self.bus
    }

    pub closed spec fn spec_ctx(&self) -> C {
        self.ctx
    }

    /// Whether the app keeps running.
    pub closed spec fn spec_running(&self) -> bool {
        self.running
    }

    /// The id the next registered scene gets.
    pub closed spec fn spec_next_id(&self) -> u64 {
        self.next_id
    }

    /// The scenes that each registered scene owns.
    pub open spec fn children_map(&self) -> Map<SceneId, Seq<SceneId>> {
        Map::new(
            |k: SceneId| self.spec_scenes().contains_key(k),
            |k: SceneId| self.spec_scenes()[k].spec_children(),
        )
    }

    /// Ids are never reused, every subscriber is registered, and the bus is
    /// well formed.
    pub open spec fn wf(&self) -> bool {
        &&& self.spec_ids().no_duplicates()
        &&& forall|i: int| 0 <= i < self.spec_ids().len() ==> (#[trigger] self.spec_ids()[i]).0 < self.spec_next_id()
        &&& self.spec_next_id() >= 1
        &&& self.spec_bus().wf()
        &&& forall|t: TypeId, s: SceneId| #[trigger] self.spec_bus().subscribers(t).contains(s) ==> self.is_registered(s)
    }

    pub fn new(ctx: C) -> (app: Self)
        ensures
            app.wf(),
            app.spec_running(),
            app.spec_next_id() == 1,
            app.spec_ids() == Seq::<SceneId>::empty(),
            app.spec_order() == Seq::<SceneId>::empty(),
            app.spec_ctx() == ctx,
            app.spec_bus().spec_queue() == Seq::<Envelope<P>>::empty(),
            forall|t: TypeId| #[trigger] app.spec_bus().subscribers(t) == Seq::<SceneId>::empty(),
    {
        let app = App {
            scenes: Vec::new(),
            order: Vec::new(),
            bus: Bus::new(),
            ctx,
            running: true,
            next_id: 1,
            spawner: PhantomData,
        };
        assert(app.spec_ids() =~= Seq::<SceneId>::empty());
        app
    }

    /// Hands out a fresh scene id.
    pub fn next_scene_id(&mut self) -> (id: SceneId)
        requires
            old(self).spec_next_id() < u64::MAX,
        ensures
            id == SceneId(old(self).spec_next_id()),
            final(self).spec_next_id() == old(self).spec_next_id() + 1,
            final(self).spec_ids() == old(self).spec_ids(),
            final(self).spec_scenes() == old(self).spec_scenes(),
            final(self).spec_order() == old(self).spec_order(),
            final(self).spec_bus() == old(self).spec_bus(),
            final(self).spec_ctx() == old(self).spec_ctx(),
            final(self).spec_running() == old(self).spec_running(),
    {
        let id = SceneId(self.next_id);
        self.next_id = self.next_id + 1;
        id
    }

    pub fn running(&self) -> (r: bool)
        ensures
            r == self.spec_running(),
    {
        self.running
    }

    pub fn ctx(&self) -> (c: &C)
        ensures
            *c == self.spec_ctx(),
    {
        &self.ctx
    }

    /// Push a message to the bus to later be delivered.
    pub fn enqueue(&mut self, env: Envelope<P>)
        requires
            old(self).wf(),
        ensures
            final(self).wf(),
            final(self).spec_bus().spec_queue() == old(self).spec_bus().spec_queue().push(env),
            final(self).spec_bus().spec_index() == old(self).spec_bus().spec_index(),
            final(self).spec_ids() == old(self).spec_ids(),
            final(self).spec_scenes() == old(self).spec_scenes(),
            final(self).spec_order() == old(self).spec_order(),
            final(self).spec_ctx() == old(self).spec_ctx(),
            final(self).spec_next_id() == old(self).spec_next_id(),
            final(self).spec_running() == old(self).spec_running(),
    {
        self.bus.enqueue(env);
        proof {
            assert forall|t: TypeId, s: SceneId| #[trigger] self.spec_bus().subscribers(t).contains(s) implies self.is_registered(s) by {
                assert(self.spec_bus().subscribers(t) == old(self).spec_bus().subscribers(t));
            }
        }
    }

    /// Where `id` sits in the scene list.
    fn find(&self, id: SceneId) -> (r: Option<usize>)
        requires
            self.spec_ids().no_duplicates(),
        ensures
            r is None <==> !self.is_registered(id),
            r matches Some(i) ==> i < self.scenes@.len() && self.scenes@[i as int].0 == id
                && self.spec_ids().index_of(id) == i,
    {
        let mut i: usize = 0;
        while i < self.scenes.len()
            invariant
                i <= self.scenes.len(),
                self.spec_ids().no_duplicates(),
                forall|j: int| 0 <= j < i ==> self.spec_ids()[j] != id,
            decreases self.scenes.len() - i,
        {
            if self.scenes[i].0 == id {
                proof {
                    assert(self.spec_ids()[i as int] == id);
                    lemma_index_of_unique(self.spec_ids(), i as int);
                }
                return Some(i);
            }
            i += 1;
        }
        proof {
            if self.is_registered(id) {
                let k = choose|k: int| 0 <= k < self.spec_ids().len() && self.spec_ids()[k] == id;
                assert(self.spec_ids()[k] == id);
            }
        }
        None
    }

    /// Appends messages to the queue, oldest first.
    fn enqueue_all(&mut self, v: Vec<Envelope<P>>)
        requires
            old(self).wf(),
        ensures
            final(self).wf(),
            final(self).spec_bus().spec_queue() == old(self).spec_bus().spec_queue() + v@,
            final(self).spec_bus().spec_index() == old(self).spec_bus().spec_index(),
            final(self).spec_ids() == old(self).spec_ids(),
            final(self).spec_scenes() == old(self).spec_scenes(),
            final(self).spec_order() == old(self).spec_order(),
            final(self).spec_ctx() == old(self).spec_ctx(),
            final(self).spec_next_id() == old(self).spec_next_id(),
            final(self).spec_running() == old(self).spec_running(),
    {
        let mut v = v;
        let ghost all = v@;
        let ghost mut done: int = 0;
        while v.len() > 0
            invariant
                self.wf(),
                0 <= done <= all.len(),
                v@ == all.skip(done),
                self.spec_bus().spec_queue() == old(self).spec_bus().spec_queue() + all.take(done),
                self.spec_bus().spec_index() == old(self).spec_bus().spec_index(),
                self.spec_ids() == old(self).spec_ids(),
                self.spec_scenes() == old(self).spec_scenes(),
                self.spec_order() == old(self).spec_order(),
                self.spec_ctx() == old(self).spec_ctx(),
                self.spec_next_id() == old(self).spec_next_id(),
                self.spec_running() == old(self).spec_running(),
            decreases v.len(),
        {
            let env = v.remove(0);
            self.enqueue(env);
            proof {
                assert(all.take(done + 1) =~= all.take(done).push(env));
                done = done + 1;
                assert(v@ =~= all.skip(done));
            }
        }
        assert(all.take(done) =~= all);
    }

    /// Register a scene.
    ///
    /// If you want to register a scene and render it, use [App::push_scene] instead.
    pub fn register_scene(&mut self, scene: S) -> (id: SceneId)
        requires
            old(self).wf(),
            old(self).spec_next_id() < u64::MAX,
        ensures
            final(self).wf(),
            exists|subs: Seq<TypeId>|
                scene.spec_registered(Seq::empty(), subs) && forall|t: TypeId|
                    #[trigger] final(self).spec_bus().subscribers(t) == old(self).spec_bus().subscribers(t)
                        + repeat_id(id, count_of(subs, t)),
            exists|out0: Outbox<P>, out: Outbox<P>|
                out0.spec_pending() == Seq::<Envelope<P>>::empty() && scene.spec_mounted(
                    final(self).spec_scenes()[id],
                    out0,
                    out,
                ) && final(self).spec_bus().spec_queue() == old(self).spec_bus().spec_queue() + out.spec_pending(),
            id == SceneId(old(self).spec_next_id()),
            !old(self).is_registered(id),
            final(self).spec_next_id() == old(self).spec_next_id() + 1,
            final(self).spec_ids() == old(self).spec_ids().push(id),
            final(self).spec_scenes().dom() == old(self).spec_scenes().dom().insert(id),
            forall|k: SceneId| #[trigger] old(self).spec_scenes().contains_key(k) ==> final(self).spec_scenes()[k]
                == old(self).spec_scenes()[k],
            final(self).spec_order() == old(self).spec_order(),
            final(self).spec_ctx() == old(self).spec_ctx(),
            final(self).spec_running() == old(self).spec_running(),
            forall|t: TypeId| #[trigger] final(self).spec_bus().subscribers(t).len() >= old(self).spec_bus().subscribers(t).len(),
            forall|t: TypeId| #[trigger] final(self).spec_bus().subscribers(t).take(old(self).spec_bus().subscribers(t).len() as int)
                == old(self).spec_bus().subscribers(t),
            forall|t: TypeId, j: int|
                old(self).spec_bus().subscribers(t).len() <= j < final(self).spec_bus().subscribers(t).len()
                    ==> #[trigger] final(self).spec_bus().subscribers(t)[j] == id,
            final(self).spec_bus().spec_queue().len() >= old(self).spec_bus().spec_queue().len(),
            final(self).spec_bus().spec_queue().take(old(self).spec_bus().spec_queue().len() as int)
                == old(self).spec_bus().spec_queue(),
    {
        let id = SceneId(self.next_id);
        self.next_id = self.next_id + 1;
        proof {
            if old(self).is_registered(id) {
                let k = choose|k: int| 0 <= k < self.spec_ids().len() && self.spec_ids()[k] == id;
                assert(self.spec_ids()[k].0 < old(self).spec_next_id());
            }
        }
        let ghost scene_before = scene;
        let mut registrar = Registrar::new();
        scene.register(&mut registrar);
        let ghost subs = registrar.spec_subs();
        proof {
            registrar.lemma_subs_view();
            assert forall|t: TypeId| #[trigger] self.spec_bus().subscribers(t) == old(self).spec_bus().subscribers(t)
                + repeat_id(id, count_of(subs.take(0), t)) by {
                assert(subs.take(0).filter(|x: TypeId| x == t) =~= Seq::<TypeId>::empty()) by {
                    reveal_with_fuel(Seq::filter, 1);
                }
                assert(old(self).spec_bus().subscribers(t) + repeat_id(id, 0) =~= old(self).spec_bus().subscribers(t));
            }
        }
        let mut k: usize = 0;
        while k < registrar.subs.len()
            invariant
                k <= registrar.subs.len(),
                subs == registrar.subs@,
                forall|t: TypeId| #[trigger] self.spec_bus().subscribers(t) == old(self).spec_bus().subscribers(t)
                    + repeat_id(id, count_of(subs.take(k as int), t)),
                self.spec_bus().wf(),
                self.scenes == old(self).scenes,
                self.order == old(self).order,
                self.ctx == old(self).ctx,
                self.running == old(self).running,
                self.next_id == old(self).next_id + 1,
                id == SceneId(old(self).next_id),
                self.spec_bus().spec_queue() == old(self).spec_bus().spec_queue(),
                forall|t: TypeId| #[trigger] self.spec_bus().subscribers(t).len() >= old(self).spec_bus().subscribers(t).len(),
                forall|t: TypeId| #[trigger] self.spec_bus().subscribers(t).take(old(self).spec_bus().subscribers(t).len() as int)
                    == old(self).spec_bus().subscribers(t),
                forall|t: TypeId, j: int|
                    old(self).spec_bus().subscribers(t).len() <= j < self.spec_bus().subscribers(t).len()
                        ==> #[trigger] self.spec_bus().subscribers(t)[j] == id,
            decreases registrar.subs.len() - k,
        {
            let tid = registrar.subs[k];
            let ghost before = self.spec_bus();
            self.bus.subscribe(tid, id);
            proof {
                assert(subs.take(k as int + 1) =~= subs.take(k as int).push(tid));
                assert forall|t: TypeId| #[trigger] self.spec_bus().subscribers(t) == old(self).spec_bus().subscribers(t)
                    + repeat_id(id, count_of(subs.take(k as int + 1), t)) by {
                    lemma_count_push(subs.take(k as int), tid, t);
                    let n = count_of(subs.take(k as int), t);
                    if t == tid {
                        assert(repeat_id(id, n).push(id) =~= repeat_id(id, n + 1));
                        assert((old(self).spec_bus().subscribers(t) + repeat_id(id, n)).push(id)
                            =~= old(self).spec_bus().subscribers(t) + repeat_id(id, n).push(id));
                    }
                }
                assert forall|t: TypeId| #[trigger] self.spec_bus().subscribers(t).take(old(self).spec_bus().subscribers(t).len() as int)
                    == old(self).spec_bus().subscribers(t) by {
                    if t == tid {
                        assert(self.spec_bus().subscribers(t).take(old(self).spec_bus().subscribers(t).len() as int)
                            =~= before.subscribers(t).take(old(self).spec_bus().subscribers(t).len() as int));
                    }
                }
                assert forall|t: TypeId, j: int|
                    old(self).spec_bus().subscribers(t).len() <= j < self.spec_bus().subscribers(t).len()
                        implies #[trigger] self.spec_bus().subscribers(t)[j] == id by {
                    if t == tid && j < before.subscribers(t).len() {
                        assert(self.spec_bus().subscribers(t)[j] == before.subscribers(t)[j]);
                    }
                }
            }
            k += 1;
        }
        let ghost final_subs = self.spec_bus();
        proof {
            assert(subs.take(subs.len() as int) =~= subs);
        }
        let mut scene = scene;
        let mut out: Outbox<P> = Outbox::new();
        let ghost out0 = out;
        scene.on_mount(&self.ctx, &mut out);
        let ghost mounted = scene;
        let ghost out1 = out;
        let pending = out.take_pending();
        let ghost all = pending@;
        let ghost q0 = self.spec_bus().spec_queue();
        let ghost idx1 = self.spec_bus().spec_index();
        let ghost bus1 = self.spec_bus();
        assert forall|t: TypeId| #[trigger] bus1.subscribers(t).len() >= old(self).spec_bus().subscribers(t).len()
            && bus1.subscribers(t).take(old(self).spec_bus().subscribers(t).len() as int) == old(self).spec_bus().subscribers(t)
            && (forall|j: int| old(self).spec_bus().subscribers(t).len() <= j < bus1.subscribers(t).len() ==> bus1.subscribers(t)[j] == id) by {
            assert(bus1.subscribers(t) == self.spec_bus().subscribers(t));
            assert(bus1.subscribers(t).len() >= old(self).spec_bus().subscribers(t).len());
        }
        let mut pending = pending;
        while pending.len() > 0
            invariant
                self.spec_bus().wf(),
                self.scenes == old(self).scenes,
                self.order == old(self).order,
                self.ctx == old(self).ctx,
                self.running == old(self).running,
                self.next_id == old(self).next_id + 1,
                id == SceneId(old(self).next_id),
                self.spec_bus().spec_index() == idx1,
                self.spec_bus().spec_queue().len() >= q0.len(),
                self.spec_bus().spec_queue().take(q0.len() as int) == q0,
                pending.len() <= all.len(),
                pending@ == all.skip(all.len() - pending.len()),
                self.spec_bus().spec_queue() == q0 + all.take(all.len() - pending.len()),
            decreases pending.len(),
        {
            let ghost done = all.len() - pending.len();
            let env = pending.remove(0);
            self.bus.enqueue(env);
            proof {
                assert(env == all[done]);
                assert(all.take(done + 1) =~= all.take(done).push(env));
                assert(pending@ =~= all.skip(all.len() - pending.len()));
                assert(self.spec_bus().spec_queue() =~= q0 + all.take(all.len() - pending.len()));
            }
            assert(self.spec_bus().spec_queue().take(q0.len() as int) =~= q0);
        }
        proof {
            assert(all.take(all.len() as int) =~= all);
        }
        let ghost ids0 = self.spec_ids();
        let ghost sc0 = self.scenes@;
        self.scenes.push((id, scene));
        proof {
            let ids = self.spec_ids();
            assert forall|t: TypeId| #[trigger] self.spec_bus().subscribers(t) == bus1.subscribers(t) by {}
            assert(ids =~= ids0.push(id));
            assert(!ids0.contains(id));
            assert(ids.no_duplicates()) by {
                assert forall|a: int, b: int| 0 <= a < ids.len() && 0 <= b < ids.len() && a != b implies ids[a]
                    != ids[b] by {
                    if a < ids0.len() && b < ids0.len() {
                        assert(ids0[a] != ids0[b]);
                    } else if a < ids0.len() {
                        assert(ids0.contains(ids0[a]));
                    } else if b < ids0.len() {
                        assert(ids0.contains(ids0[b]));
                    }
                }
            }
            assert forall|k: SceneId| #[trigger] old(self).spec_scenes().contains_key(k) implies self.spec_scenes()[k]
                == old(self).spec_scenes()[k] by {
                assert(ids0 == ids_of(sc0));
                assert(ids == ids_of(self.scenes@));
                let i = ids0.index_of(k);
                assert(ids0.contains(k));
                assert(0 <= i < ids0.len() && ids0[i] == k);
                lemma_index_of_unique(ids0, i);
                lemma_index_of_unique(ids, i);
                assert(ids[i] == k);
            }
            assert forall|k: SceneId| ids.contains(k) <==> (ids0.contains(k) || k == id) by {
                if ids.contains(k) {
                    let q = choose|q: int| 0 <= q < ids.len() && ids[q] == k;
                    if q < ids0.len() {
                        assert(ids0[q] == k);
                    }
                }
                if ids0.contains(k) {
                    let q = choose|q: int| 0 <= q < ids0.len() && ids0[q] == k;
                    assert(ids[q] == k);
                }
                if k == id {
                    assert(ids[ids0.len() as int] == id);
                }
            }
            assert(self.spec_scenes().dom() =~= old(self).spec_scenes().dom().insert(id));
            assert forall|i: int| 0 <= i < ids.len() implies (#[trigger] ids[i]).0 < self.spec_next_id() by {
                if i < ids0.len() {
                    assert(ids[i] == ids0[i]);
                    assert(ids0[i].0 < old(self).spec_next_id());
                }
            }
            assert forall|t: TypeId, s: SceneId| #[trigger] self.spec_bus().subscribers(t).contains(s) implies self.is_registered(s) by {
                let subs = self.spec_bus().subscribers(t);
                let o = old(self).spec_bus().subscribers(t);
                let j = choose|j: int| 0 <= j < subs.len() && subs[j] == s;
                assert(subs == bus1.subscribers(t));
                assert(subs.len() >= o.len());
                if j < o.len() {
                    assert(subs.take(o.len() as int)[j] == s);
                    assert(o.contains(s));
                    assert(ids0.contains(s));
                    let q = choose|q: int| 0 <= q < ids0.len() && ids0[q] == s;
                    assert(ids[q] == s);
                } else {
                    assert(s == id);
                    assert(ids[ids0.len() as int] == id);
                }
            }
        }
        proof {
            assert forall|t: TypeId| #[trigger] self.spec_bus().subscribers(t) == old(self).spec_bus().subscribers(t)
                + repeat_id(id, count_of(subs, t)) by {
                assert(self.spec_bus().subscribers(t) == bus1.subscribers(t));
                assert(bus1.subscribers(t) == final_subs.subscribers(t));
            }
            assert(scene_before.spec_registered(Seq::empty(), subs));
            assert(self.spec_scenes()[id] == mounted) by {
                let ids = self.spec_ids();
                assert(ids[ids0.len() as int] == id);
                lemma_index_of_unique(ids, ids0.len() as int);
            }
        }
        id
    }

    /// Register a scene and push it onto the stack to render it.
    pub fn push_scene(&mut self, scene: S) -> (id: SceneId)
        requires
            old(self).wf(),
            old(self).spec_next_id() < u64::MAX,
        ensures
            final(self).wf(),
            exists|subs: Seq<TypeId>|
                scene.spec_registered(Seq::empty(), subs) && forall|t: TypeId|
                    #[trigger] final(self).spec_bus().subscribers(t) == old(self).spec_bus().subscribers(t)
                        + repeat_id(id, count_of(subs, t)),
            exists|out0: Outbox<P>, out: Outbox<P>|
                out0.spec_pending() == Seq::<Envelope<P>>::empty() && scene.spec_mounted(
                    final(self).spec_scenes()[id],
                    out0,
                    out,
                ) && final(self).spec_bus().spec_queue() == old(self).spec_bus().spec_queue() + out.spec_pending(),
            id == SceneId(old(self).spec_next_id()),
            !old(self).is_registered(id),
            final(self).spec_next_id() == old(self).spec_next_id() + 1,
            final(self).spec_ids() == old(self).spec_ids().push(id),
            final(self).spec_scenes().dom() == old(self).spec_scenes().dom().insert(id),
            forall|k: SceneId| #[trigger] old(self).spec_scenes().contains_key(k) ==> final(self).spec_scenes()[k]
                == old(self).spec_scenes()[k],
            final(self).spec_order() == old(self).spec_order().push(id),
            final(self).spec_ctx() == old(self).spec_ctx(),
            final(self).spec_running() == old(self).spec_running(),
            forall|t: TypeId| #[trigger] final(self).spec_bus().subscribers(t).len() >= old(self).spec_bus().subscribers(t).len(),
            forall|t: TypeId| #[trigger] final(self).spec_bus().subscribers(t).take(old(self).spec_bus().subscribers(t).len() as int)
                == old(self).spec_bus().subscribers(t),
            forall|t: TypeId, j: int|
                old(self).spec_bus().subscribers(t).len() <= j < final(self).spec_bus().subscribers(t).len()
                    ==> #[trigger] final(self).spec_bus().subscribers(t)[j] == id,
            final(self).spec_bus().spec_queue().len() >= old(self).spec_bus().spec_queue().len(),
            final(self).spec_bus().spec_queue().take(old(self).spec_bus().spec_queue().len() as int)
                == old(self).spec_bus().spec_queue(),
    {
        let id = self.register_scene(scene);
        let ghost mid = *self;
        self.order.push(id);
        proof {
            let (out0, out) = choose|out0: Outbox<P>, out: Outbox<P>|
                out0.spec_pending() == Seq::<Envelope<P>>::empty() && scene.spec_mounted(
                    mid.spec_scenes()[id],
                    out0,
                    out,
                ) && mid.spec_bus().spec_queue() == old(self).spec_bus().spec_queue() + out.spec_pending();
            assert(self.spec_scenes() == mid.spec_scenes());
            assert(self.spec_bus() == mid.spec_bus());
        }
        id
    }

    /// Remove a scene and all its children scenes.
    fn remove_recursive(&mut self, id: SceneId)
        requires
            old(self).wf(),
        ensures
            final(self).wf(),
            final(self).spec_order() == old(self).spec_order(),
            final(self).spec_ctx() == old(self).spec_ctx(),
            final(self).spec_running() == old(self).spec_running(),
            final(self).spec_next_id() == old(self).spec_next_id(),
            final(self).spec_bus().spec_queue() == old(self).spec_bus().spec_queue(),
            final(self).scenes@.len() <= old(self).scenes@.len(),
            !final(self).is_registered(id),
            kept_in(final(self).spec_scenes(), old(self).spec_scenes()),
            forall|r: SceneId, c: SceneId|
                old(self).spec_scenes().contains_key(r) && !final(self).spec_scenes().contains_key(r)
                    && #[trigger] old(self).children_map()[r].contains(c) ==> !#[trigger] final(self).spec_scenes().contains_key(c),
            forall|r: SceneId|
                old(self).spec_scenes().contains_key(r) && !#[trigger] final(self).spec_scenes().contains_key(r)
                    ==> reaches(old(self).children_map(), id, r),
            forall|t: TypeId| #[trigger] final(self).spec_bus().subscribers(t) == old(self).spec_bus().subscribers(t).filter(
                member_of(final(self).spec_scenes().dom()),
            ),
        decreases old(self).scenes@.len(),
    {
        match self.find(id) {
            None => {
                self.bus.unsubscribe(id);
                proof {
                    assert forall|t: TypeId| #[trigger] self.spec_bus().subscribers(t) == old(self).spec_bus().subscribers(t).filter(
                        member_of(self.spec_scenes().dom()),
                    ) by {
                        let o = old(self).spec_bus().subscribers(t);
                        assert forall|k: int| 0 <= k < o.len() implies crate::bus::other_than(id)(#[trigger] o[k])
                            == member_of(self.spec_scenes().dom())(o[k]) by {
                            assert(o.contains(o[k]));
                        }
                        lemma_filter_ext(o, crate::bus::other_than(id), member_of(self.spec_scenes().dom()));
                    }
                    assert(self.spec_scenes() == old(self).spec_scenes());
                }
            },
            Some(i) => {
                self.bus.unsubscribe(id);
                let entry = self.scenes.remove(i);
                let kids = entry.1.child_ids();
                proof {
                    lemma_remove_keeps(old(self).scenes@, i as int);
                    assert(self.scenes@ == old(self).scenes@.remove(i as int));
                    assert(old(self).spec_scenes()[id] == entry.1) by {
                        lemma_index_of_unique(old(self).spec_ids(), i as int);
                    }
                    assert(kept_in(self.spec_scenes(), old(self).spec_scenes()));
                    let ids = self.spec_ids();
                    assert forall|j: int| 0 <= j < ids.len() implies (#[trigger] ids[j]).0 < self.spec_next_id() by {
                        let j2 = if j < i { j } else { j + 1 };
                        assert(ids[j] == old(self).spec_ids()[j2]);
                    }
                    assert forall|t: TypeId| #[trigger] self.spec_bus().subscribers(t) == old(self).spec_bus().subscribers(t).filter(
                        member_of(self.spec_scenes().dom()),
                    ) by {
                        let o = old(self).spec_bus().subscribers(t);
                        assert forall|k: int| 0 <= k < o.len() implies crate::bus::other_than(id)(#[trigger] o[k])
                            == member_of(self.spec_scenes().dom())(o[k]) by {
                            assert(o.contains(o[k]));
                        }
                        lemma_filter_ext(o, crate::bus::other_than(id), member_of(self.spec_scenes().dom()));
                    }
                    assert forall|t: TypeId, s: SceneId| #[trigger] self.spec_bus().subscribers(t).contains(s) implies self.is_registered(s) by {
                        let o = old(self).spec_bus().subscribers(t);
                        broadcast use vstd::seq_lib::group_filter_ensures;
                    }
                    lemma_reaches_self(old(self).children_map(), id);
                }
                let mut k: usize = 0;
                while k < kids.len()
                    invariant
                        k <= kids.len(),
                        self.wf(),
                        self.scenes@.len() < old(self).scenes@.len(),
                        old(self).wf(),
                        old(self).spec_scenes().contains_key(id),
                        kids@ == old(self).children_map()[id],
                        self.spec_order() == old(self).spec_order(),
                        self.spec_ctx() == old(self).spec_ctx(),
                        self.spec_running() == old(self).spec_running(),
                        self.spec_next_id() == old(self).spec_next_id(),
                        self.spec_bus().spec_queue() == old(self).spec_bus().spec_queue(),
                        !self.is_registered(id),
                        kept_in(self.spec_scenes(), old(self).spec_scenes()),
                        forall|j: int| 0 <= j < k ==> !self.spec_scenes().contains_key(#[trigger] kids@[j]),
                        forall|r: SceneId, c: SceneId|
                            r != id && old(self).spec_scenes().contains_key(r) && !self.spec_scenes().contains_key(r)
                                && #[trigger] old(self).children_map()[r].contains(c) ==> !#[trigger] self.spec_scenes().contains_key(c),
                        forall|r: SceneId|
                            old(self).spec_scenes().contains_key(r) && !#[trigger] self.spec_scenes().contains_key(r)
                                ==> reaches(old(self).children_map(), id, r),
                        forall|t: TypeId| #[trigger] self.spec_bus().subscribers(t) == old(self).spec_bus().subscribers(t).filter(
                            member_of(self.spec_scenes().dom()),
                        ),
                    decreases kids.len() - k,
                {
                    let ghost before = *self;
                    self.remove_recursive(kids[k]);
                    proof {
                        assert forall|q: SceneId| #[trigger] self.spec_scenes().dom().contains(q) implies old(self).spec_scenes().dom().contains(q)
                            && self.spec_scenes()[q] == old(self).spec_scenes()[q] by {
                            assert(before.spec_scenes().dom().contains(q));
                        }
                        assert(kept_in(self.spec_scenes(), old(self).spec_scenes()));
                        assert forall|q: SceneId| #[trigger] before.children_map().dom().contains(q) implies old(self).children_map().dom().contains(q)
                            && before.children_map()[q] == old(self).children_map()[q] by {
                            assert(before.spec_scenes().dom().contains(q));
                        }
                        assert(kept_in(before.children_map(), old(self).children_map()));
                        if self.is_registered(id) {
                            assert(self.spec_scenes().contains_key(id));
                            assert(before.spec_scenes().contains_key(id));
                        }
                        assert forall|r: SceneId, c: SceneId|
                            r != id && old(self).spec_scenes().contains_key(r) && !self.spec_scenes().contains_key(r)
                                && #[trigger] old(self).children_map()[r].contains(c) implies !#[trigger] self.spec_scenes().contains_key(c) by {
                            if before.spec_scenes().contains_key(r) {
                                assert(before.children_map()[r] == old(self).children_map()[r]);
                                assert(before.children_map()[r].contains(c));
                            } else {
                                assert(!before.spec_scenes().contains_key(c));
                            }
                        }
                        assert forall|r: SceneId|
                            old(self).spec_scenes().contains_key(r) && !#[trigger] self.spec_scenes().contains_key(r)
                                implies reaches(old(self).children_map(), id, r) by {
                            if before.spec_scenes().contains_key(r) {
                                assert(kids@[k as int] == kids@[k as int]);
                                lemma_reaches_through_child(old(self).children_map(), before.children_map(), id, kids@[k as int], r);
                            }
                        }
                        assert forall|t: TypeId| #[trigger] self.spec_bus().subscribers(t) == old(self).spec_bus().subscribers(t).filter(
                            member_of(self.spec_scenes().dom()),
                        ) by {
                            let o = old(self).spec_bus().subscribers(t);
                            let pk = member_of(before.spec_scenes().dom());
                            let pn = member_of(self.spec_scenes().dom());
                            lemma_filter_filter(o, pk, pn);
                            assert forall|q: int| 0 <= q < o.len() implies (|x: SceneId| pk(x) && pn(x))(#[trigger] o[q]) == pn(o[q]) by {}
                            lemma_filter_ext(o, |x: SceneId| pk(x) && pn(x), pn);
                        }
                    }
                    k += 1;
                }
            },
        }
    }



    /// What closing `id` does: `id` leaves the stack; it and every scene below
    /// it, following the children, leave the registry together with their
    /// subscriptions; every other scene stays as it was.
    pub open spec fn scene_closed(old_app: Self, new_app: Self, id: SceneId) -> bool {
        &&& new_app.spec_order() == without(old_app.spec_order(), id)
        &&& new_app.spec_ctx() == old_app.spec_ctx()
        &&& new_app.spec_running() == old_app.spec_running()
        &&& new_app.spec_next_id() == old_app.spec_next_id()
        &&& new_app.spec_bus().spec_queue() == old_app.spec_bus().spec_queue()
        &&& !new_app.is_registered(id)
        &&& kept_in(new_app.spec_scenes(), old_app.spec_scenes())
        &&& forall|r: SceneId, c: SceneId|
            old_app.spec_scenes().contains_key(r) && !new_app.spec_scenes().contains_key(r)
                && #[trigger] old_app.children_map()[r].contains(c) ==> !#[trigger] new_app.spec_scenes().contains_key(c)
        &&& forall|r: SceneId|
            old_app.spec_scenes().contains_key(r) && !#[trigger] new_app.spec_scenes().contains_key(r)
                ==> reaches(old_app.children_map(), id, r)
        &&& forall|t: TypeId| #[trigger] new_app.spec_bus().subscribers(t) == old_app.spec_bus().subscribers(t).filter(
            member_of(new_app.spec_scenes().dom()),
        )
    }

    /// Close a scene and remove it together with its children scenes.
    pub fn close_scene(&mut self, id: SceneId)
        requires
            old(self).wf(),
        ensures
            final(self).wf(),
            Self::scene_closed(*old(self), *final(self), id),
    {
        let order = crate::bus::vec_without(&self.order, id);
        self.order = order;
        self.remove_recursive(id);
    }

    /// The id that the next registered scene gets is not in use.
    pub proof fn lemma_next_id_fresh(app: Self)
        requires
            app.wf(),
        ensures
            !app.is_registered(SceneId(app.spec_next_id())),
    {
        let id = SceneId(app.spec_next_id());
        if app.is_registered(id) {
            let k = choose|k: int| 0 <= k < app.spec_ids().len() && app.spec_ids()[k] == id;
            assert(app.spec_ids()[k].0 < app.spec_next_id());
        }
    }

    /// No message is delivered to a scene that is not registered: no message
    /// type lists it among its subscribers.
    pub proof fn lemma_unregistered_gets_no_messages(app: Self, s: SceneId, t: TypeId)
        requires
            app.wf(),
            !app.is_registered(s),
        ensures
            !app.spec_bus().subscribers(t).contains(s),
    {
    }

    /// Along a path of children from the closed scene, every scene is gone.
    proof fn lemma_path_removed(old_app: Self, new_app: Self, id: SceneId, p: Seq<SceneId>, j: int)
        requires
            Self::scene_closed(old_app, new_app, id),
            p.len() > 0,
            p[0] == id,
            path_in(old_app.children_map(), p),
            0 <= j < p.len(),
        ensures
            !new_app.spec_scenes().contains_key(p[j]),
        decreases j,
    {
        if j > 0 {
            Self::lemma_path_removed(old_app, new_app, id, p, j - 1);
            assert(old_app.children_map().contains_key(p[j - 1]));
            assert(old_app.children_map()[p[j - 1]].contains(p[j - 1 + 1]));
        }
    }

    /// Closing a scene removes exactly the scenes that lie below it through
    /// the children, the scene itself included, and each removed scene loses
    /// its subscriptions, so that it gets no more messages.
    pub proof fn lemma_close_removes_subtree(old_app: Self, new_app: Self, id: SceneId, r: SceneId, t: TypeId)
        requires
            old_app.wf(),
            Self::scene_closed(old_app, new_app, id),
            old_app.spec_scenes().contains_key(r),
        ensures
            !new_app.spec_scenes().contains_key(r) <==> reaches(old_app.children_map(), id, r),
            !new_app.spec_scenes().contains_key(r) ==> !new_app.spec_bus().subscribers(t).contains(r),
    {
        if reaches(old_app.children_map(), id, r) {
            let p = choose|p: Seq<SceneId>|
                p.len() > 0 && p[0] == id && p.last() == r && #[trigger] path_in(old_app.children_map(), p);
            Self::lemma_path_removed(old_app, new_app, id, p, p.len() - 1);
        }
        if !new_app.spec_scenes().contains_key(r) {
            let o = old_app.spec_bus().subscribers(t);
            broadcast use vstd::seq_lib::group_filter_ensures;
            assert(new_app.spec_bus().subscribers(t) == o.filter(member_of(new_app.spec_scenes().dom())));
        }
    }

    /// The scene `sid` handles `msg`: `m0` and `o0` are the scenes and the
    /// outbox before, `m1` and `o1` after. A scene that is not registered is
    /// passed over.
    pub open spec fn handled_by(
        m0: Map<SceneId, S>,
        sid: SceneId,
        msg: Envelope<P>,
        o0: Outbox<P>,
        m1: Map<SceneId, S>,
        o1: Outbox<P>,
    ) -> bool {
        if m0.contains_key(sid) {
            &&& m1 == m0.insert(sid, m1[sid])
            &&& m0[sid].spec_handled(msg, m1[sid], o0, o1)
        } else {
            &&& m1 == m0
            &&& o1 == o0
        }
    }

    /// The subscribers `subs`, one after the other in their order, handle
    /// `msg`: `ms[k]` and `os[k]` are the scenes and the outbox before the
    /// `k`-th of them, `ms[k + 1]` and `os[k + 1]` after it.
    pub open spec fn delivered(
        subs: Seq<SceneId>,
        msg: Envelope<P>,
        ms: Seq<Map<SceneId, S>>,
        os: Seq<Outbox<P>>,
    ) -> bool {
        &&& ms.len() == subs.len() + 1
        &&& os.len() == subs.len() + 1
        &&& forall|k: int|
            0 <= k < subs.len() ==> Self::handled_by(ms[k], #[trigger] subs[k], msg, os[k], ms[k + 1], os[k + 1])
    }

    /// `after` is `before` with the scenes `m` and the queue `q`; nothing
    /// else changed.
    pub open spec fn same_but(before: Self, after: Self, m: Map<SceneId, S>, q: Seq<Envelope<P>>) -> bool {
        &&& after.spec_scenes() == m
        &&& after.spec_ids() == before.spec_ids()
        &&& after.spec_order() == before.spec_order()
        &&& after.spec_bus().spec_index() == before.spec_bus().spec_index()
        &&& after.spec_bus().spec_queue() == q
        &&& after.spec_ctx() == before.spec_ctx()
        &&& after.spec_running() == before.spec_running()
        &&& after.spec_next_id() == before.spec_next_id()
    }

    /// The key walks down the scenes `path`, each taking a look at it in
    /// turn: `ms[k]` are the scenes before the `k`-th takes its look, and
    /// `flows[k]` is what it answers. Every scene but the last lets the key
    /// pass, and the next one is its active child after its look.
    pub open spec fn walk_steps(key: KeyInput, path: Seq<SceneId>, ms: Seq<Map<SceneId, S>>, flows: Seq<KeyFlow>) -> bool {
        &&& ms.len() == path.len() + 1
        &&& flows.len() == path.len()
        &&& forall|k: int|
            0 <= k < path.len() ==> {
                &&& ms[k].contains_key(#[trigger] path[k])
                &&& ms[k + 1] == ms[k].insert(path[k], ms[k + 1][path[k]])
                &&& ms[k][path[k]].spec_intercepted(key, ms[k + 1][path[k]], flows[k])
            }
        &&& forall|k: int|
            0 <= k < path.len() - 1 ==> flows[k] == KeyFlow::Pass && ms[k + 1][#[trigger] path[k]].spec_active_child()
                == Some(path[k + 1])
    }

    /// The scene at the end of the walk handles the key: `leaf_after` is it
    /// after, `o1` what it emitted into the outbox `o0` it was handed empty,
    /// `a` its action; `mid` is the app once those messages are queued, and
    /// applying `a` turns it into `after` and leaves `e` to run.
    pub open spec fn leaf_step(
        before: Self,
        key: KeyInput,
        m: Map<SceneId, S>,
        leaf: SceneId,
        leaf_after: S,
        o0: Outbox<P>,
        o1: Outbox<P>,
        a: Action<F>,
        mid: Self,
        e: Effect<F>,
        after: Self,
    ) -> bool {
        &&& o0.spec_pending() == Seq::<Envelope<P>>::empty()
        &&& m[leaf].spec_key_answered(key, leaf_after, o0, o1, a)
        &&& mid.wf()
        &&& Self::same_but(before, mid, m.insert(leaf, leaf_after), before.spec_bus().spec_queue() + o1.spec_pending())
        &&& Self::applied(mid, after, leaf, a, e)
    }

    /// How a walk ends. It reached no registered scene: nothing changes. The
    /// last scene consumed the key, or its active child is not registered or
    /// was passed already (the walk would go round for ever): only the looks
    /// taken change the scenes. Otherwise the last scene has
    /// no active child and handles the key itself (`leaf_step`).
    pub open spec fn walk_ended(
        before: Self,
        key: KeyInput,
        path: Seq<SceneId>,
        ms: Seq<Map<SceneId, S>>,
        flows: Seq<KeyFlow>,
        after: Self,
        r: InputOutcome<F>,
    ) -> bool {
        let n = path.len() as int;
        if n == 0 {
            r is Done && after == before
        } else if flows[n - 1] == KeyFlow::Consumed {
            r is Done && Self::same_but(before, after, ms[n], before.spec_bus().spec_queue())
        } else {
            match ms[n][path[n - 1]].spec_active_child() {
                Some(c) => (!ms[n].contains_key(c) || path.contains(c)) && r is Done && Self::same_but(
                    before,
                    after,
                    ms[n],
                    before.spec_bus().spec_queue(),
                ),
                None => exists|leaf_after: S, o0: Outbox<P>, o1: Outbox<P>, a: Action<F>, mid: Self, e: Effect<F>|
                    #[trigger] Self::leaf_step(before, key, ms[n], path[n - 1], leaf_after, o0, o1, a, mid, e, after)
                        && r == InputOutcome::<F>::Handled(e),
            }
        }
    }

    /// What applying `action`, asked for by `actor`, does: `e` is what is
    /// left for the application to run.
    pub open spec fn applied(before: Self, after: Self, actor: SceneId, action: Action<F>, e: Effect<F>) -> bool {
        match action {
            Action::Nothing => e is Nothing && after == before,
            Action::Pop => e is Nothing && Self::scene_closed(before, after, actor),
            Action::Quit => e is Nothing && !after.spec_running() && after.spec_ids() == before.spec_ids()
                && after.spec_scenes() == before.spec_scenes() && after.spec_order() == before.spec_order()
                && after.spec_bus() == before.spec_bus() && after.spec_ctx() == before.spec_ctx()
                && after.spec_next_id() == before.spec_next_id(),
            Action::RunJob(cmd) => e == Effect::<F>::RunJob(cmd) && after == before,
            Action::Push(f) => e == Effect::<F>::Spawn(f) && after == before,
        }
    }

    /// Applies what a scene asked for; hands back what is left for the
    /// application to run.
    pub fn apply(&mut self, actor: SceneId, action: Action<F>) -> (e: Effect<F>)
        requires
            old(self).wf(),
        ensures
            final(self).wf(),
            Self::applied(*old(self), *final(self), actor, action, e),
    {
        match action {
            Action::Nothing => Effect::Nothing,
            Action::Pop => {
                self.close_scene(actor);
                Effect::Nothing
            },
            Action::Quit => {
                self.running = false;
                Effect::Nothing
            },
            Action::RunJob(cmd) => Effect::RunJob(cmd),
            Action::Push(f) => Effect::Spawn(f),
        }
    }

    /// Delivers the oldest message of the queue to the scenes subscribed to
    /// its type, then queues what they emitted behind the messages already
    /// waiting. Returns false when the queue was empty.
    pub fn dispatch_one(&mut self) -> (r: bool)
        requires
            old(self).wf(),
        ensures
            final(self).wf(),
            r == (old(self).spec_bus().spec_queue().len() > 0),
            !r ==> final(self).spec_bus().spec_queue() == old(self).spec_bus().spec_queue()
                && final(self).spec_scenes() == old(self).spec_scenes(),
            final(self).spec_ids() == old(self).spec_ids(),
            final(self).spec_scenes().dom() == old(self).spec_scenes().dom(),
            final(self).spec_order() == old(self).spec_order(),
            final(self).spec_ctx() == old(self).spec_ctx(),
            final(self).spec_running() == old(self).spec_running(),
            final(self).spec_next_id() == old(self).spec_next_id(),
            final(self).spec_bus().spec_index() == old(self).spec_bus().spec_index(),
            r ==> final(self).spec_bus().spec_queue().len() >= old(self).spec_bus().spec_queue().len() - 1,
            r ==> final(self).spec_bus().spec_queue().take(old(self).spec_bus().spec_queue().len() - 1)
                == old(self).spec_bus().spec_queue().drop_first(),
            r ==> forall|k: SceneId|
                #[trigger] old(self).spec_scenes().contains_key(k) && !old(self).spec_bus().subscribers(
                    old(self).spec_bus().spec_queue()[0].tid,
                ).contains(k) ==> final(self).spec_scenes()[k] == old(self).spec_scenes()[k],
            r ==> exists|ms: Seq<Map<SceneId, S>>, os: Seq<Outbox<P>>|
                #[trigger] Self::delivered(
                    old(self).spec_bus().subscribers(old(self).spec_bus().spec_queue()[0].tid),
                    old(self).spec_bus().spec_queue()[0],
                    ms,
                    os,
                ) && ms[0] == old(self).spec_scenes() && os[0].spec_pending() == Seq::<Envelope<P>>::empty()
                    && final(self).spec_scenes() == ms.last() && final(self).spec_bus().spec_queue()
                    == old(self).spec_bus().spec_queue().drop_first() + os.last().spec_pending(),
    {
        let popped = self.bus.pop();
        proof {
            assert forall|t: TypeId, s: SceneId| #[trigger] self.spec_bus().subscribers(t).contains(s) implies self.is_registered(s) by {
                assert(self.spec_bus().subscribers(t) == old(self).spec_bus().subscribers(t));
            }
        }
        match popped {
            None => false,
            Some(env) => {
                let subs = self.bus.subscribers_of(&env.tid);
                let mut out: Outbox<P> = Outbox::new();
                let ghost mut ms: Seq<Map<SceneId, S>> = seq![self.spec_scenes()];
                let ghost mut os: Seq<Outbox<P>> = seq![out];
                let mut j: usize = 0;
                while j < subs.len()
                    invariant
                        j <= subs.len(),
                        Self::delivered(subs@.take(j as int), env, ms, os),
                        ms[0] == old(self).spec_scenes(),
                        os[0].spec_pending() == Seq::<Envelope<P>>::empty(),
                        ms.last() == self.spec_scenes(),
                        os.last() == out,
                        self.wf(),
                        subs@ == old(self).spec_bus().subscribers(env.tid),
                        env == old(self).spec_bus().spec_queue()[0],
                        self.spec_ids() == old(self).spec_ids(),
                        self.spec_order() == old(self).spec_order(),
                        self.spec_ctx() == old(self).spec_ctx(),
                        self.spec_running() == old(self).spec_running(),
                        self.spec_next_id() == old(self).spec_next_id(),
                        self.spec_bus().spec_index() == old(self).spec_bus().spec_index(),
                        self.spec_bus().spec_queue() == old(self).spec_bus().spec_queue().drop_first(),
                        forall|k: SceneId|
                            #[trigger] old(self).spec_scenes().contains_key(k) && !subs@.contains(k) ==> self.spec_scenes()[k]
                                == old(self).spec_scenes()[k],
                    decreases subs.len() - j,
                {
                    let sid = subs[j];
                    let ghost m0 = self.spec_scenes();
                    let ghost o0 = out;
                    match self.find(sid) {
                        Some(i) => {
                            let ghost before = self.scenes@;
                            self.scenes[i].1.handle(&env, &self.ctx, &mut out);
                            proof {
                                assert(self.scenes@ == before.update(i as int, (sid, self.scenes@[i as int].1)));
                                lemma_update_entry(before, i as int, self.scenes@[i as int].1);
                                lemma_index_of_unique(ids_of(before), i as int);
                                assert(m0[sid] == before[i as int].1);
                                assert(Self::handled_by(m0, sid, env, o0, self.spec_scenes(), out));
                                assert(ids_of(self.scenes@) =~= ids_of(before));
                                assert forall|k: SceneId|
                                    #[trigger] old(self).spec_scenes().contains_key(k) && !subs@.contains(k) implies self.spec_scenes()[k]
                                        == old(self).spec_scenes()[k] by {
                                    let q = ids_of(before).index_of(k);
                                    assert(ids_of(before).contains(k));
                                    assert(0 <= q < ids_of(before).len() && ids_of(before)[q] == k);
                                    assert(q != i as int) by {
                                        lemma_index_of_unique(ids_of(before), i as int);
                                        assert(ids_of(before)[i as int] == sid);
                                        assert(subs@[j as int] == sid);
                                    }
                                }
                                assert forall|t: TypeId, s2: SceneId| #[trigger] self.spec_bus().subscribers(t).contains(s2) implies self.is_registered(s2) by {
                                }
                            }
                        },
                        None => {
                            proof {
                                assert(!m0.contains_key(sid));
                            }
                        },
                    }
                    proof {
                        let ms2 = ms.push(self.spec_scenes());
                        let os2 = os.push(out);
                        assert(Self::handled_by(ms[j as int], sid, env, os[j as int], ms2[j as int + 1], os2[j as int + 1]));
                        let sj = subs@.take(j as int + 1);
                        assert forall|k: int| 0 <= k < sj.len() implies Self::handled_by(ms2[k], #[trigger] sj[k], env, os2[k], ms2[k + 1], os2[k + 1]) by {
                            if k < j {
                                assert(sj[k] == subs@.take(j as int)[k]);
                            }
                        }
                        ms = ms2;
                        os = os2;
                    }
                    j += 1;
                }
                proof {
                    assert(subs@.take(subs.len() as int) =~= subs@);
                }
                let ghost out_last = out;
                let pending = out.take_pending();
                self.enqueue_all(pending);
                assert(self.spec_bus().spec_queue() == old(self).spec_bus().spec_queue().drop_first() + os.last().spec_pending());
                true
            },
        }
    }

    /// What handling a key press does: Control-C quits and touches nothing
    /// else; any other key walks from the top of the stack along the active
    /// children (`walk_steps`) and ends as `walk_ended` says; the queue only
    /// grows at its back.
    pub open spec fn input_handled(before: Self, key: KeyInput, after: Self, r: InputOutcome<F>) -> bool {
        &&& after.spec_ctx() == before.spec_ctx()
        &&& after.spec_next_id() == before.spec_next_id()
        &&& after.spec_bus().spec_queue().len() >= before.spec_bus().spec_queue().len()
        &&& after.spec_bus().spec_queue().take(before.spec_bus().spec_queue().len() as int)
            =~= before.spec_bus().spec_queue()
        &&& is_quit_key(key) ==> r is Done && !after.spec_running() && after.spec_scenes() == before.spec_scenes()
            && after.spec_order() == before.spec_order() && after.spec_bus() == before.spec_bus()
        &&& !is_quit_key(key) && before.spec_order().len() == 0 ==> r is Done && after == before
        &&& r is Handled ==> !is_quit_key(key) && before.spec_order().len() > 0
        &&& !is_quit_key(key) && before.spec_running() && !after.spec_running() ==> r is Handled
        &&& !is_quit_key(key) && before.spec_order().len() > 0 ==> exists|
            path: Seq<SceneId>,
            ms: Seq<Map<SceneId, S>>,
            flows: Seq<KeyFlow>,
        |
            #[trigger] Self::walk_steps(key, path, ms, flows) && path.no_duplicates() && ms[0]
                == before.spec_scenes() && (path.len() == 0 ==> !before.spec_scenes().contains_key(
                before.spec_order().last(),
            )) && (path.len() > 0 ==> path[0] == before.spec_order().last()) && Self::walk_ended(
                before,
                key,
                path,
                ms,
                flows,
                after,
                r,
            )
    }

    /// Only Control-C quits by itself: after any other key the app keeps
    /// running, unless a scene handled the key and asked to quit.
    pub proof fn lemma_only_control_c_quits(before: Self, key: KeyInput, after: Self, r: InputOutcome<F>)
        requires
            Self::input_handled(before, key, after, r),
            before.spec_running(),
            !(key.ctrl && key.code == KeyCode::Char('c')),
        ensures
            after.spec_running() || r is Handled,
    {
    }

    /// Control-C quits, and no scene sees it: the scenes, the stack and the
    /// bus stay as they were.
    pub proof fn lemma_control_c_quits(before: Self, key: KeyInput, after: Self, r: InputOutcome<F>)
        requires
            Self::input_handled(before, key, after, r),
            key.ctrl,
            key.code == KeyCode::Char('c'),
        ensures
            r is Done,
            !after.spec_running(),
            after.spec_scenes() == before.spec_scenes(),
            after.spec_order() == before.spec_order(),
            after.spec_bus() == before.spec_bus(),
    {
    }

    /// Any other key reaches the scenes: the scene on top of the stack, when
    /// registered, takes its look at the key first.
    pub proof fn lemma_other_keys_reach_the_top_scene(before: Self, key: KeyInput, after: Self, r: InputOutcome<F>)
        requires
            Self::input_handled(before, key, after, r),
            !(key.ctrl && key.code == KeyCode::Char('c')),
            before.spec_order().len() > 0,
            before.spec_scenes().contains_key(before.spec_order().last()),
        ensures
            exists|path: Seq<SceneId>, ms: Seq<Map<SceneId, S>>, flows: Seq<KeyFlow>|
                #[trigger] Self::walk_steps(key, path, ms, flows) && ms[0] == before.spec_scenes() && path.len() > 0
                    && path[0] == before.spec_order().last() && before.spec_scenes()[path[0]].spec_intercepted(
                    key,
                    ms[1][path[0]],
                    flows[0],
                ),
    {
        let (path, ms, flows) = choose|path: Seq<SceneId>, ms: Seq<Map<SceneId, S>>, flows: Seq<KeyFlow>|
            #[trigger] Self::walk_steps(key, path, ms, flows) && path.no_duplicates() && ms[0]
                == before.spec_scenes() && (path.len() == 0 ==> !before.spec_scenes().contains_key(
                before.spec_order().last(),
            )) && (path.len() > 0 ==> path[0] == before.spec_order().last()) && Self::walk_ended(
                before,
                key,
                path,
                ms,
                flows,
                after,
                r,
            );
        assert(path.len() > 0);
        assert(ms[0].contains_key(path[0]));
    }

    /// Push a key event to be handled by the app. Control-C quits. Otherwise
    /// the key walks from the top of the stack along the active children;
    /// each scene on the way may consume it; the scene at the end handles it,
    /// and the app applies the action it returns. A walk that comes back to a
    /// scene it passed stops there with nothing handled.
    pub fn handle_input(&mut self, key: &KeyInput) -> (r: InputOutcome<F>)
        requires
            old(self).wf(),
        ensures
            final(self).wf(),
            Self::input_handled(*old(self), *key, *final(self), r),
    {
        if key.ctrl && key.code == KeyCode::Char('c') {
            let _ = self.apply(SceneId(0), Action::<F>::Quit);
            return InputOutcome::Done;
        }
        if self.order.len() == 0 {
            return InputOutcome::Done;
        }
        let top = self.order[self.order.len() - 1];
        let ghost m0 = self.spec_scenes();
        let ghost mut path: Seq<SceneId> = Seq::empty();
        let ghost mut ms: Seq<Map<SceneId, S>> = seq![m0];
        let ghost mut flows: Seq<KeyFlow> = Seq::empty();
        let mut visited: Vec<SceneId> = Vec::new();
        let mut id = top;
        let mut leaf: usize = 0;
        loop
            invariant_except_break
                path.len() > 0 ==> flows.last() == KeyFlow::Pass && ms.last()[path.last()].spec_active_child() == Some(id),
            invariant
                self.wf(),
                !is_quit_key(*key),
                old(self).spec_order().len() > 0,
                top == old(self).spec_order().last(),
                visited@ == path,
                path.no_duplicates(),
                forall|k: int| 0 <= k < path.len() ==> self.spec_ids().contains(#[trigger] path[k]),
                path.len() <= self.scenes@.len(),
                self.spec_ids() == old(self).spec_ids(),
                self.spec_order() == old(self).spec_order(),
                self.spec_bus() == old(self).spec_bus(),
                self.spec_ctx() == old(self).spec_ctx(),
                self.spec_running() == old(self).spec_running(),
                self.spec_next_id() == old(self).spec_next_id(),
                Self::walk_steps(*key, path, ms, flows),
                ms[0] == old(self).spec_scenes(),
                ms.last() == self.spec_scenes(),
                path.len() == 0 ==> id == top && *self == *old(self),
                path.len() > 0 ==> path[0] == top,
            ensures
                leaf < self.scenes@.len(),
                self.scenes@[leaf as int].0 == id,
                path.len() > 0,
                path.last() == id,
                flows.last() == KeyFlow::Pass,
                ms.last()[id].spec_active_child() is None,
                path.no_duplicates(),
            decreases self.scenes@.len() - path.len(),
        {
            let ghost mb = self.spec_scenes();
            if contains_id(&visited, id) {
                return InputOutcome::Done;
            }
            match self.find(id) {
                None => {
                    proof {
                        assert(!self.spec_scenes().contains_key(id));
                    }
                    return InputOutcome::Done;
                },
                Some(i) => {
                    let ghost before = self.scenes@;
                    let flow = self.scenes[i].1.intercept_key(key);
                    proof {
                        assert(self.scenes@ == before.update(i as int, (id, self.scenes@[i as int].1)));
                        lemma_update_entry(before, i as int, self.scenes@[i as int].1);
                        lemma_index_of_unique(ids_of(before), i as int);
                        assert(mb[id] == before[i as int].1);
                        assert(mb.contains_key(id));
                        let p2 = path.push(id);
                        let ms2 = ms.push(self.spec_scenes());
                        let f2 = flows.push(flow);
                        assert(self.spec_scenes()[id] == self.scenes@[i as int].1);
                        assert forall|k: int| 0 <= k < p2.len() implies {
                            &&& ms2[k].contains_key(#[trigger] p2[k])
                            &&& ms2[k + 1] == ms2[k].insert(p2[k], ms2[k + 1][p2[k]])
                            &&& ms2[k][p2[k]].spec_intercepted(*key, ms2[k + 1][p2[k]], f2[k])
                        } by {
                            if k < path.len() {
                                assert(p2[k] == path[k]);
                            }
                        }
                        assert forall|k: int| 0 <= k < p2.len() - 1 implies f2[k] == KeyFlow::Pass && ms2[k + 1][#[trigger] p2[k]].spec_active_child()
                            == Some(p2[k + 1]) by {
                            if k < path.len() - 1 {
                                assert(p2[k] == path[k]);
                                assert(p2[k + 1] == path[k + 1]);
                            } else {
                                assert(k == path.len() - 1);
                                assert(p2[k] == path.last());
                            }
                        }
                        assert(Self::walk_steps(*key, p2, ms2, f2));
                        assert(p2.no_duplicates()) by {
                            assert forall|a: int, b: int| 0 <= a < p2.len() && 0 <= b < p2.len() && a != b implies p2[a] != p2[b] by {
                                if a < path.len() && b < path.len() {
                                    assert(p2[a] == path[a] && p2[b] == path[b]);
                                } else if a < path.len() {
                                    assert(p2[a] == path[a]);
                                    assert(path.contains(path[a]));
                                } else if b < path.len() {
                                    assert(p2[b] == path[b]);
                                    assert(path.contains(path[b]));
                                }
                            }
                        }
                        assert(self.spec_ids().contains(id)) by {
                            assert(self.spec_ids()[i as int] == id);
                        }
                        assert forall|k: int| 0 <= k < p2.len() implies self.spec_ids().contains(#[trigger] p2[k]) by {
                            if k < path.len() {
                                assert(p2[k] == path[k]);
                            }
                        }
                        lemma_distinct_within(p2, self.spec_ids());
                        path = p2;
                        ms = ms2;
                        flows = f2;
                        assert(ids_of(self.scenes@) =~= ids_of(before));
                    }
                    visited.push(id);
                    if flow == KeyFlow::Consumed {
                        return InputOutcome::Done;
                    }
                    match self.scenes[i].1.active_child() {
                        Some(c) => {
                            id = c;
                        },
                        None => {
                            leaf = i;
                            break;
                        },
                    }
                },
            }
        }
        let ghost before = self.scenes@;
        let ghost mb = self.spec_scenes();
        let mut out: Outbox<P> = Outbox::new();
        let ghost o0 = out;
        let action = self.scenes[leaf].1.handle_key(key, &self.ctx, &mut out);
        let ghost o1 = out;
        proof {
            assert(self.scenes@ == before.update(leaf as int, (id, self.scenes@[leaf as int].1)));
            lemma_update_entry(before, leaf as int, self.scenes@[leaf as int].1);
            lemma_index_of_unique(ids_of(before), leaf as int);
            assert(mb[id] == before[leaf as int].1);
            assert(ids_of(self.scenes@) =~= ids_of(before));
        }
        self.enqueue_all(out.take_pending());
        let ghost mid = *self;
        let e = self.apply(id, action);
        proof {
            let leaf_after = mid.spec_scenes()[id];
            assert(mid.spec_scenes() == mb.insert(id, leaf_after));
            assert(Self::leaf_step(*old(self), *key, ms.last(), id, leaf_after, o0, o1, action, mid, e, *self));
            let n = path.len() as int;
            assert(ms[n] == ms.last());
            assert(path[n - 1] == id);
        }
        InputOutcome::Handled(e)
    }

    /// The id the next registered scene gets.
    pub fn next_id(&self) -> (r: u64)
        ensures
            r == self.spec_next_id(),
    {
        self.next_id
    }

    /// Whether a scene is registered under `id`.
    pub fn contains(&self, id: SceneId) -> (r: bool)
        requires
            self.wf(),
        ensures
            r == self.is_registered(id),
    {
        self.find(id).is_some()
    }

    /// The stack of scenes on screen, bottom first.
    pub fn order(&self) -> (r: &Vec<SceneId>)
        ensures
            r@ == self.spec_order(),
    {
        &self.order
    }

    /// The scene registered under `id`, if any.
    pub fn scene(&self, id: SceneId) -> (r: Option<&S>)
        requires
            self.wf(),
        ensures
            r == (if self.spec_scenes().contains_key(id) {
                Some(&self.spec_scenes()[id])
            } else {
                None
            }),
    {
        match self.find(id) {
            Some(i) => Some(&self.scenes[i].1),
            None => None,
        }
    }
}

} // verus!
