use vstd::prelude::*;
use std::collections::VecDeque;
use crate::graph::{
    Atom, Formula, GraphError, Node, Selector, SelectorImMap, Value, is_held, value_at,
};
use crate::effect::{
    Deferred, Dispatch, Effect, Table, notifies, notify_queued, pushed, single_notify,
};
use crate::entity::{
    AccessError, EntityStore, Handle, Reservation, Slot, WeakHandle, end_lease_post, lease_post,
    release_post, slot_plus_one, strong_of, take_dropped_post,
};
use crate::subscriber::{
    Emitter, Registration, Registry, activated, answered, lemma_strip_keeps_others, lemma_strip_push,
    lists_exactly, receives, receiving, receiving_kind, registered, strip, unregistered,
};

verus! {

/// A guard for one registration. `PlatformContext::unsubscribe` destroys the
/// guard and removes the registration; `detach` gives the guard up and leaves
/// the registration in place for good. The guard holds no reference to the
/// context, so merely dropping it also leaves the registration in place.
#[must_use]
pub struct Subscription {
    table: Table,
    id: usize,
}

impl View for Subscription {
    type V = (Table, usize);

    closed spec fn view(&self) -> (Table, usize) {
        (self.table, self.id)
    }
}

impl Subscription {
    pub fn table(&self) -> (r: Table)
        ensures
            r == self@.0,
    {
        self.table
    }

    pub fn id(&self) -> (r: usize)
        ensures
            r == self@.1,
    {
        self.id
    }

    /// Gives the guard up: the registration now outlives it.
    pub fn detach(self) {
    }
}

/// `d` is the finalization record of the batch entry `entry`: its release
/// listeners are those registered for it in `releases`.
pub open spec fn released_as<V, P>(d: Dispatch<V, P>, entry: (usize, V), releases: Seq<Registration<()>>) -> bool {
    &&& d matches Dispatch::Released { entity, value, listeners }
    &&& entity == entry.0
    &&& value == entry.1
    &&& lists_exactly(listeners@, registered(releases, Emitter::Entity(entity)))
}

/// The (entity, final value) pairs of a run of finalization records.
pub open spec fn released_pairs<V, P>(log: Seq<Dispatch<V, P>>) -> Seq<(usize, V)> {
    Seq::new(log.len(), |j: int| (log[j]->Released_entity, log[j]->Released_value))
}

/// What finalizing the dropped entities does.
pub open spec fn finalize_post<V, P>(before: PlatformContext<V, P>, after: PlatformContext<V, P>, log: Seq<Dispatch<V, P>>) -> bool {
    let gone = before.entities().pending();
    &&& take_dropped_post(before.entities(), after.entities(), released_pairs(log))
    &&& forall|k: int| 0 <= k < log.len() ==> released_as(#[trigger] log[k], released_pairs(log)[k], before.releases())
    &&& after.observers() == strip(before.observers(), gone)
    &&& after.listeners() == strip(before.listeners(), gone)
    &&& after.releases() == strip(before.releases(), gone)
    &&& after.queue() == before.queue()
    &&& after.depth() == before.depth()
    &&& after.flushing() == before.flushing()
    &&& after.activations() == before.activations()
    &&& after.graph() == before.graph()
}

/// What applying effect `e` does to the subscriber tables, and what it reports.
pub open spec fn apply_post<V, P>(before: PlatformContext<V, P>, after: PlatformContext<V, P>, e: Effect<P>, d: Option<Dispatch<V, P>>) -> bool {
    match e {
        Effect::Notify { emitter } => {
            &&& d matches Some(Dispatch::Notified { emitter: m, observers })
            &&& m == emitter
            &&& lists_exactly(observers@, receiving(before.observers(), emitter))
            &&& after.observers() == before.observers()
            &&& after.listeners() == before.listeners()
            &&& after.releases() == before.releases()
        },
        Effect::Emit { emitter, kind, payload } => {
            &&& d matches Some(Dispatch::Emitted { emitter: m, kind: k, payload: p, listeners })
            &&& m == emitter
            &&& k == kind
            &&& p == payload
            &&& lists_exactly(listeners@, receiving_kind(before.listeners(), emitter, kind))
            &&& after.observers() == before.observers()
            &&& after.listeners() == before.listeners()
            &&& after.releases() == before.releases()
        },
        Effect::Defer { action: Deferred::Activate { table, id } } => {
            &&& d is None
            &&& after.observers() == if table == Table::Observers { activated(before.observers(), id) } else { before.observers() }
            &&& after.listeners() == if table == Table::Listeners { activated(before.listeners(), id) } else { before.listeners() }
            &&& after.releases() == if table == Table::Releases { activated(before.releases(), id) } else { before.releases() }
        },
        Effect::Defer { action: Deferred::Callback { token } } => {
            &&& d matches Some(Dispatch::Called { token: t })
            &&& t == token
            &&& after.observers() == before.observers()
            &&& after.listeners() == before.listeners()
            &&& after.releases() == before.releases()
        },
    }
}

/// What a flush leaves: an empty queue, no entity waiting for finalization, and
/// every entity that waited before finalized.
pub open spec fn flush_post<V, P>(before: PlatformContext<V, P>, after: PlatformContext<V, P>) -> bool {
    &&& after.queue() == Seq::<Effect<P>>::empty()
    &&& after.graph() == before.graph()
    &&& after.entities().pending() == Seq::<usize>::empty()
    &&& after.entities().slots().len() == before.entities().slots().len()
    &&& forall|i: int| 0 <= i < after.entities().slots().len() ==> #[trigger] after.entities().slots()[i] == (
        if before.entities().pending().contains(i as usize) { Slot::Finalized } else { before.entities().slots()[i] })
}

/// A run of dispatch records as a sequence: empty or one.
pub open spec fn opt_seq<V, P>(d: Option<Dispatch<V, P>>) -> Seq<Dispatch<V, P>> {
    match d {
        Some(x) => seq![x],
        None => Seq::empty(),
    }
}

/// One round of the flush loop from `before` to `after`: the dropped entities
/// are finalized, giving `mid` and the records `fin`; then the effect at the
/// front of the queue, if there is one, is taken off and applied, reporting `d`.
#[verifier::opaque]
pub open spec fn flush_round<V, P>(
    before: PlatformContext<V, P>,
    mid: PlatformContext<V, P>,
    after: PlatformContext<V, P>,
    fin: Seq<Dispatch<V, P>>,
    d: Option<Dispatch<V, P>>,
) -> bool {
    &&& finalize_post(before, mid, fin)
    &&& if mid.queue().len() > 0 {
        &&& after.queue() == mid.queue().subrange(1, mid.queue().len() as int)
        &&& after.entities() == mid.entities()
        &&& after.depth() == mid.depth()
        &&& after.flushing() == mid.flushing()
        &&& after.activations() == mid.activations()
        &&& after.graph() == mid.graph()
        &&& apply_post(mid, after, mid.queue()[0], d)
    } else {
        &&& after == mid
        &&& d is None
    }
}

/// `states` are the states between the rounds of a flush, `mids` those within
/// them. Every round but the last applies an effect; the last finds the queue
/// empty.
pub open spec fn flush_run<V, P>(
    states: Seq<PlatformContext<V, P>>,
    mids: Seq<PlatformContext<V, P>>,
    fins: Seq<Seq<Dispatch<V, P>>>,
    ds: Seq<Option<Dispatch<V, P>>>,
) -> bool {
    &&& mids.len() > 0
    &&& forall|k: int| 0 <= k < mids.len() - 1 ==> (#[trigger] mids[k]).queue().len() > 0
    &&& mids.last().queue().len() == 0
    &&& states.len() == mids.len() + 1
    &&& states.last().queue().len() == 0
    &&& fins.len() == mids.len()
    &&& ds.len() == mids.len()
    &&& forall|k: int| 0 <= k < mids.len() ==> flush_round(#[trigger] states[k], mids[k], states[k + 1], fins[k], ds[k])
}

/// What the rounds of a flush report, in order.
pub open spec fn run_log<V, P>(fins: Seq<Seq<Dispatch<V, P>>>, ds: Seq<Option<Dispatch<V, P>>>) -> Seq<Dispatch<V, P>> {
    Seq::new(ds.len(), |k: int| fins[k] + opt_seq(ds[k])).flatten()
}

proof fn lemma_run_log_push<V, P>(fins: Seq<Seq<Dispatch<V, P>>>, ds: Seq<Option<Dispatch<V, P>>>, d: Option<Dispatch<V, P>>)
    requires
        fins.len() == ds.len() + 1,
    ensures
        run_log(fins, ds.push(d)) == run_log(fins.subrange(0, ds.len() as int), ds) + fins.last() + opt_seq(d),
{
    let ds1 = ds.push(d);
    let parts = Seq::new(ds.len(), |k: int| fins[k] + opt_seq(ds[k]));
    let parts1 = Seq::new(ds1.len(), |k: int| fins[k] + opt_seq(ds1[k]));
    let f0 = fins.subrange(0, ds.len() as int);
    assert(Seq::new(ds.len(), |k: int| f0[k] + opt_seq(ds[k])) =~= parts);
    assert(parts1 =~= parts.push(fins.last() + opt_seq(d)));
    parts.lemma_flatten_push(fins.last() + opt_seq(d));
    assert(fins.last() + opt_seq(d) =~= fins.last() + opt_seq(d));
    assert(parts.flatten() + (fins.last() + opt_seq(d)) =~= parts.flatten() + fins.last() + opt_seq(d));
}

/// What one step of a flush driven by the caller does: finalize every waiting
/// entity and apply nothing, or, with none waiting, apply the front effect.
pub open spec fn step_post<V, P>(before: PlatformContext<V, P>, after: PlatformContext<V, P>, fin: Seq<Dispatch<V, P>>, d: Option<Dispatch<V, P>>) -> bool {
    if before.entities().pending().len() > 0 {
        &&& finalize_post(before, after, fin)
        &&& d is None
    } else {
        &&& fin.len() == 0
        &&& after.entities() == before.entities()
        &&& after.depth() == before.depth()
        &&& after.flushing() == before.flushing()
        &&& after.activations() == before.activations()
        &&& after.graph() == before.graph()
        &&& if before.queue().len() > 0 {
            &&& after.queue() == before.queue().subrange(1, before.queue().len() as int)
            &&& apply_post(before, after, before.queue()[0], d)
        } else {
            &&& after.queue() == before.queue()
            &&& after.observers() == before.observers()
            &&& after.listeners() == before.listeners()
            &&& after.releases() == before.releases()
            &&& d is None
        }
    }
}

/// What closing an update does: the outermost one flushes, an inner one only
/// lowers the depth.
pub open spec fn end_update_post<V, P>(before: PlatformContext<V, P>, after: PlatformContext<V, P>, log: Seq<Dispatch<V, P>>) -> bool {
    &&& after.depth() == before.depth() - 1
    &&& after.flushing() == before.flushing()
    &&& after.activations() == if before.depth() == 1 { Seq::<Deferred>::empty() } else { before.activations() }
    &&& if before.depth() == 1 && !before.flushing() {
        &&& flush_post(before, after)
        &&& exists|states: Seq<PlatformContext<V, P>>, mids: Seq<PlatformContext<V, P>>, fins: Seq<Seq<Dispatch<V, P>>>, ds: Seq<Option<Dispatch<V, P>>>|
            closing_run(before, after, log, states, mids, fins, ds)
    } else {
        &&& log.len() == 0
        &&& after.entities() == before.entities()
        &&& after.observers() == before.observers()
        &&& after.listeners() == before.listeners()
        &&& after.releases() == before.releases()
        &&& after.queue() == if before.depth() == 1 {
            before.queue() + defers(before.activations())
        } else {
            before.queue()
        }
        &&& after.graph() == before.graph()
    }
}

/// The activation effects of a run of held-back activations.
pub open spec fn defers<P>(acts: Seq<Deferred>) -> Seq<Effect<P>> {
    Seq::new(acts.len(), |i: int| Effect::Defer { action: acts[i] })
}

/// Where an activation goes: straight into the queue outside any update, and
/// otherwise to the held-back activations, to be queued when the outermost
/// update closes.
pub open spec fn scheduled<V, P>(before: PlatformContext<V, P>, after: PlatformContext<V, P>, action: Deferred) -> bool {
    if before.depth() == 0 {
        &&& after.queue() == before.queue().push(Effect::Defer { action })
        &&& after.activations() == before.activations()
    } else {
        &&& after.queue() == before.queue()
        &&& after.activations() == before.activations().push(action)
    }
}

impl Selector {
    /// Computes the selector afresh from the current graph. Every node it reads,
    /// directly or through other selectors, must be installed and not checked out.
    pub fn read<V, P>(&self, ctx: &PlatformContext<V, P>) -> (r: Value)
        requires
            value_at(ctx.graph().nodes(), self@ as int) is Some,
        ensures
            value_at(ctx.graph().nodes(), self@ as int) == Some(r@),
    {
        ctx.graph.compute(self.key())
    }

    /// The selector's value where it has one; `None` where a node it reads is
    /// missing or checked out.
    pub fn try_read<V, P>(&self, ctx: &PlatformContext<V, P>) -> (r: Option<Value>)
        ensures
            match r {
                Some(v) => value_at(ctx.graph().nodes(), self@ as int) == Some(v@),
                None => value_at(ctx.graph().nodes(), self@ as int) is None,
            },
    {
        ctx.graph.try_read(self.key())
    }
}

/// The entry point: entities, subscriber tables and the effect queue, driven
/// through nested updates.
pub struct PlatformContext<V, P> {
    entities: EntityStore<V>,
    observers: Registry<()>,
    listeners: Registry<u64>,
    releases: Registry<()>,
    queue: VecDeque<Effect<P>>,
    depth: usize,
    flushing: bool,
    activations: Vec<Deferred>,
    graph: SelectorImMap,
}

impl<V, P> PlatformContext<V, P> {
    pub closed spec fn entities(&self) -> EntityStore<V> {
        self.entities
    }

    pub closed spec fn observers(&self) -> Seq<Registration<()>> {
        self.observers.entries()
    }

    pub closed spec fn listeners(&self) -> Seq<Registration<u64>> {
        self.listeners.entries()
    }

    pub closed spec fn releases(&self) -> Seq<Registration<()>> {
        self.releases.entries()
    }

    /// The effects waiting for the next flush, first to be applied first.
    pub closed spec fn queue(&self) -> Seq<Effect<P>> {
        self.queue@
    }

    /// The computation graph.
    pub closed spec fn graph(&self) -> SelectorImMap {
        self.graph
    }

    /// Whether a flush driven step by step is under way.
    pub closed spec fn flushing(&self) -> bool {
        self.flushing
    }

    /// The activations of registrations made during the open updates, in order;
    /// they are queued when the outermost update closes, after everything it
    /// queued.
    pub closed spec fn activations(&self) -> Seq<Deferred> {
        self.activations@
    }

    /// How many updates are open.
    pub closed spec fn depth(&self) -> nat {
        self.depth as nat
    }

    pub open spec fn wf(&self) -> bool {
        &&& self.entities().wf()
        &&& self.graph().wf()
        &&& single_notify(self.queue())
    }

    /// Everything but the entity store is as in `other`.
    pub open spec fn same_but_entities(&self, other: Self) -> bool {
        &&& self.observers() == other.observers()
        &&& self.listeners() == other.listeners()
        &&& self.releases() == other.releases()
        &&& self.queue() == other.queue()
        &&& self.depth() == other.depth()
        &&& self.flushing() == other.flushing()
        &&& self.activations() == other.activations()
        &&& self.graph() == other.graph()
    }

    pub fn new() -> (r: Self)
        ensures
            r.wf(),
            r.depth() == 0,
            !r.flushing(),
            r.activations() == Seq::<Deferred>::empty(),
            r.queue() == Seq::<Effect<P>>::empty(),
            r.entities().slots() == Seq::<Slot<V>>::empty(),
            r.entities().pending() == Seq::<usize>::empty(),
            r.observers() == Seq::<Registration<()>>::empty(),
            r.listeners() == Seq::<Registration<u64>>::empty(),
            r.releases() == Seq::<Registration<()>>::empty(),
            r.graph().nodes() == Seq::<Node>::empty(),
    {
        PlatformContext {
            entities: EntityStore::new(),
            observers: Registry::new(),
            listeners: Registry::new(),
            releases: Registry::new(),
            queue: VecDeque::new(),
            depth: 0,
            flushing: false,
            activations: Vec::new(),
            graph: SelectorImMap::new(),
        }
    }

    /// The entity store, for inspection.
    pub fn entity_store(&self) -> (r: &EntityStore<V>)
        ensures
            *r == self.entities(),
    {
        &self.entities
    }

    /// The number of effects waiting for the next flush.
    pub fn queued(&self) -> (r: usize)
        ensures
            r == self.queue().len(),
    {
        self.queue.len()
    }

    /// The number of updates that are open.
    pub fn open_updates(&self) -> (r: usize)
        ensures
            r == self.depth(),
    {
        self.depth
    }

    /// Whether a notification of `m` is waiting in the queue.
    pub fn is_notify_pending(&self, m: Emitter) -> (b: bool)
        ensures
            b == notify_queued(self.queue(), m),
    {
        let mut i: usize = 0;
        while i < self.queue.len()
            invariant
                0 <= i <= self.queue@.len(),
                forall|k: int| 0 <= k < i ==> !notifies(self.queue@[k], m),
            decreases self.queue@.len() - i,
        {
            match &self.queue[i] {
                Effect::Notify { emitter } => {
                    if *emitter == m {
                        assert(notifies(self.queue@[i as int], m));
                        return true;
                    }
                },
                _ => {},
            }
            i = i + 1;
        }
        false
    }

    /// Queues an effect. A notification of an emitter that already has one
    /// waiting is dropped; every other effect is appended.
    pub fn push_effect(&mut self, e: Effect<P>)
        requires
            old(self).wf(),
        ensures
            final(self).wf(),
            final(self).queue() == pushed(old(self).queue(), e),
            final(self).entities() == old(self).entities(),
            final(self).observers() == old(self).observers(),
            final(self).listeners() == old(self).listeners(),
            final(self).releases() == old(self).releases(),
            final(self).depth() == old(self).depth(),
            final(self).flushing() == old(self).flushing(),
            final(self).activations() == old(self).activations(),
            final(self).graph() == old(self).graph(),
    {
        let skip = match &e {
            Effect::Notify { emitter } => self.is_notify_pending(*emitter),
            _ => false,
        };
        if !skip {
            let ghost q0 = self.queue@;
            self.queue.push_back(e);
            proof {
                let q = self.queue@;
                assert forall|a: int, b: int, m: Emitter|
                    0 <= a < q.len() && 0 <= b < q.len() && #[trigger] notifies(q[a], m)
                        && #[trigger] notifies(q[b], m) implies a == b by {
                    if a < q0.len() && b < q0.len() {
                        assert(notifies(q0[a], m) && notifies(q0[b], m));
                    } else if a < q0.len() {
                        assert(notifies(q0[a], m));
                        assert(notify_queued(q0, m));
                    } else if b < q0.len() {
                        assert(notifies(q0[b], m));
                        assert(notify_queued(q0, m));
                    }
                }
            }
        }
    }

    /// Allocates an entity identifier without a value.
    pub fn reserve_entity(&mut self) -> (r: Reservation)
        requires
            old(self).wf(),
            old(self).entities().slots().len() < usize::MAX,
        ensures
            final(self).wf(),
            final(self).same_but_entities(*old(self)),
            r@ == old(self).entities().slots().len(),
            final(self).entities().slots() == old(self).entities().slots().push(Slot::Reserved),
            final(self).entities().pending() == old(self).entities().pending(),
    {
        self.entities.reserve()
    }

    /// Whether the reservation still waits for its value.
    pub fn is_reserved(&self, r: &Reservation) -> (b: bool)
        ensures
            b == (r@ < self.entities().slots().len() && self.entities().slots()[r@ as int] is Reserved),
    {
        self.entities.is_reserved(r)
    }

    /// Installs the value of a reserved entity, with one strong handle.
    pub fn insert_entity(&mut self, r: Reservation, value: V) -> (h: Handle)
        requires
            old(self).wf(),
            r@ < old(self).entities().slots().len(),
            old(self).entities().slots()[r@ as int] is Reserved,
        ensures
            final(self).wf(),
            final(self).same_but_entities(*old(self)),
            h@ == r@,
            final(self).entities().slots() == old(self).entities().slots().update(
                r@ as int,
                Slot::Live { value, strong: 1 },
            ),
            final(self).entities().pending() == old(self).entities().pending(),
    {
        self.entities.insert(r, value)
    }

    /// Creates an entity in one step.
    pub fn create_entity(&mut self, value: V) -> (h: Handle)
        requires
            old(self).wf(),
            old(self).entities().slots().len() < usize::MAX,
        ensures
            final(self).wf(),
            final(self).same_but_entities(*old(self)),
            h@ == old(self).entities().slots().len(),
            final(self).entities().slots() == old(self).entities().slots().push(
                Slot::Live { value, strong: 1 },
            ),
            final(self).entities().pending() == old(self).entities().pending(),
    {
        let r = self.entities.reserve();
        let h = self.entities.insert(r, value);
        proof {
            assert(self.entities().slots() =~= old(self).entities().slots().push(
                Slot::Live { value, strong: 1 },
            ));
        }
        h
    }

    /// The value of a live entity; `None` while it is leased or once it is dropped.
    pub fn read(&self, h: &Handle) -> (r: Option<&V>)
        ensures
            match r {
                Some(v) => h@ < self.entities().slots().len() && self.entities().slots()[h@ as int]
                    == (Slot::Live { value: *v, strong: strong_of(self.entities().slots()[h@ as int]) }),
                None => !(h@ < self.entities().slots().len() && self.entities().slots()[h@ as int] is Live),
            },
    {
        self.entities.get(h.id())
    }

    /// Checks an entity's value out for mutation. The entity must be live and
    /// not already leased: a second lease is a contract violation.
    pub fn lease(&mut self, h: &Handle) -> (r: V)
        requires
            old(self).wf(),
            h@ < old(self).entities().slots().len(),
            old(self).entities().slots()[h@ as int] is Live,
        ensures
            final(self).wf(),
            final(self).same_but_entities(*old(self)),
            lease_post(old(self).entities(), final(self).entities(), h@, Ok(r)),
    {
        self.entities.lease(h)
    }

    /// Checks an entity's value out where that is allowed: a second lease of a
    /// leased entity fails with `Reentrant`, the same way on every attempt, and
    /// changes nothing.
    pub fn try_lease(&mut self, h: &Handle) -> (r: Result<V, AccessError>)
        requires
            old(self).wf(),
        ensures
            final(self).wf(),
            final(self).same_but_entities(*old(self)),
            lease_post(old(self).entities(), final(self).entities(), h@, r),
    {
        self.entities.try_lease(h)
    }

    /// Puts a leased value back.
    pub fn end_lease(&mut self, h: &Handle, value: V)
        requires
            old(self).wf(),
            h@ < old(self).entities().slots().len(),
            old(self).entities().slots()[h@ as int] is Leased,
        ensures
            final(self).wf(),
            final(self).same_but_entities(*old(self)),
            end_lease_post(old(self).entities(), final(self).entities(), h@, value),
    {
        self.entities.end_lease(h.id(), value)
    }

    /// One more strong handle.
    pub fn clone_handle(&mut self, h: &Handle) -> (r: Result<Handle, AccessError>)
        requires
            old(self).wf(),
        ensures
            final(self).wf(),
            final(self).same_but_entities(*old(self)),
            final(self).entities().pending() == old(self).entities().pending(),
            match r {
                Ok(n) => n@ == h@ && final(self).entities().slots() == old(self).entities().slots().update(
                    h@ as int,
                    slot_plus_one(old(self).entities().slots()[h@ as int]),
                ),
                Err(_) => final(self).entities().slots() == old(self).entities().slots(),
            },
            r is Ok <==> (old(self).entities().is_held(h@) && strong_of(
                old(self).entities().slots()[h@ as int],
            ) < u64::MAX),
    {
        self.entities.clone_handle(h)
    }

    pub fn downgrade(&self, h: &Handle) -> (w: WeakHandle)
        ensures
            w@ == h@,
    {
        self.entities.downgrade(h)
    }

    /// A strong handle while the entity is alive, `None` once it is dropped.
    pub fn upgrade(&mut self, w: &WeakHandle) -> (r: Option<Handle>)
        requires
            old(self).wf(),
        ensures
            final(self).wf(),
            final(self).same_but_entities(*old(self)),
            final(self).entities().pending() == old(self).entities().pending(),
            match r {
                Some(n) => n@ == w@ && final(self).entities().slots() == old(self).entities().slots().update(
                    w@ as int,
                    slot_plus_one(old(self).entities().slots()[w@ as int]),
                ),
                None => final(self).entities().slots() == old(self).entities().slots(),
            },
            r is Some <==> (old(self).entities().is_held(w@) && 0 < strong_of(
                old(self).entities().slots()[w@ as int],
            ) < u64::MAX),
    {
        self.entities.upgrade(w)
    }

    /// Gives up a strong handle; at zero the entity is finalized by the next flush.
    pub fn release(&mut self, h: Handle)
        requires
            old(self).wf(),
        ensures
            final(self).wf(),
            final(self).same_but_entities(*old(self)),
            release_post(old(self).entities(), final(self).entities(), h@),
    {
        self.entities.release(h)
    }

    /// Queues a notification of an entity's observers.
    pub fn notify(&mut self, h: &Handle)
        requires
            old(self).wf(),
        ensures
            final(self).wf(),
            final(self).queue() == pushed(old(self).queue(), Effect::Notify { emitter: Emitter::Entity(h@) }),
            final(self).entities() == old(self).entities(),
            final(self).observers() == old(self).observers(),
            final(self).listeners() == old(self).listeners(),
            final(self).releases() == old(self).releases(),
            final(self).depth() == old(self).depth(),
            final(self).flushing() == old(self).flushing(),
            final(self).activations() == old(self).activations(),
            final(self).graph() == old(self).graph(),
    {
        self.push_effect(Effect::Notify { emitter: Emitter::Entity(h.id()) })
    }

    /// Queues an event of kind `kind` from an entity.
    pub fn emit(&mut self, h: &Handle, kind: u64, payload: P)
        requires
            old(self).wf(),
        ensures
            final(self).wf(),
            final(self).queue() == old(self).queue().push(
                Effect::Emit { emitter: Emitter::Entity(h@), kind, payload },
            ),
            final(self).entities() == old(self).entities(),
            final(self).observers() == old(self).observers(),
            final(self).listeners() == old(self).listeners(),
            final(self).releases() == old(self).releases(),
            final(self).depth() == old(self).depth(),
            final(self).flushing() == old(self).flushing(),
            final(self).activations() == old(self).activations(),
            final(self).graph() == old(self).graph(),
    {
        self.push_effect(Effect::Emit { emitter: Emitter::Entity(h.id()), kind, payload })
    }

    /// Queues a callback, reported back as `Dispatch::Called` in queue order.
    pub fn defer(&mut self, token: u64)
        requires
            old(self).wf(),
        ensures
            final(self).wf(),
            final(self).queue() == old(self).queue().push(
                Effect::Defer { action: Deferred::Callback { token } },
            ),
            final(self).entities() == old(self).entities(),
            final(self).observers() == old(self).observers(),
            final(self).listeners() == old(self).listeners(),
            final(self).releases() == old(self).releases(),
            final(self).depth() == old(self).depth(),
            final(self).flushing() == old(self).flushing(),
            final(self).activations() == old(self).activations(),
            final(self).graph() == old(self).graph(),
    {
        self.push_effect(Effect::Defer { action: Deferred::Callback { token } })
    }

    /// Queues an activation, or, inside an update, holds it back until the
    /// outermost update closes.
    fn schedule_activation(&mut self, action: Deferred)
        requires
            old(self).wf(),
        ensures
            final(self).wf(),
            scheduled(*old(self), *final(self), action),
            final(self).entities() == old(self).entities(),
            final(self).observers() == old(self).observers(),
            final(self).listeners() == old(self).listeners(),
            final(self).releases() == old(self).releases(),
            final(self).depth() == old(self).depth(),
            final(self).flushing() == old(self).flushing(),
            final(self).graph() == old(self).graph(),
    {
        if self.depth == 0 {
            self.push_effect(Effect::Defer { action });
        } else {
            self.activations.push(action);
        }
    }

    /// Queues the held-back activations after everything queued so far.
    fn queue_activations(&mut self)
        requires
            old(self).wf(),
        ensures
            final(self).wf(),
            final(self).queue() == old(self).queue() + defers(old(self).activations()),
            final(self).activations() == Seq::<Deferred>::empty(),
            final(self).entities() == old(self).entities(),
            final(self).observers() == old(self).observers(),
            final(self).listeners() == old(self).listeners(),
            final(self).releases() == old(self).releases(),
            final(self).depth() == old(self).depth(),
            final(self).flushing() == old(self).flushing(),
            final(self).graph() == old(self).graph(),
    {
        let mut acts: Vec<Deferred> = Vec::new();
        std::mem::swap(&mut acts, &mut self.activations);
        let mut i: usize = 0;
        while i < acts.len()
            invariant
                0 <= i <= acts@.len(),
                acts@ == old(self).activations(),
                self.wf(),
                self.queue() == old(self).queue() + defers(acts@.subrange(0, i as int)),
                self.activations() == Seq::<Deferred>::empty(),
                self.entities() == old(self).entities(),
                self.observers() == old(self).observers(),
                self.listeners() == old(self).listeners(),
                self.releases() == old(self).releases(),
                self.depth() == old(self).depth(),
                self.flushing() == old(self).flushing(),
                self.graph() == old(self).graph(),
            decreases acts@.len() - i,
        {
            self.push_effect(Effect::Defer { action: acts[i] });
            i = i + 1;
            proof {
                assert(defers::<P>(acts@.subrange(0, i as int)) =~= defers::<P>(acts@.subrange(0, i - 1)).push(
                    Effect::Defer { action: acts@[i - 1] },
                ));
                assert(self.queue() =~= old(self).queue() + defers(acts@.subrange(0, i as int)));
            }
        }
        proof {
            assert(acts@.subrange(0, i as int) =~= acts@);
        }
    }

    /// Registers an observer of `key`. Made inside an update, it goes live only
    /// after everything that the outermost open update queues: its activation is
    /// queued when that update closes. Made outside any update, its activation
    /// is queued at once.
    pub fn observe(&mut self, key: Emitter) -> (sub: Subscription)
        requires
            old(self).wf(),
            old(self).observers().len() < usize::MAX,
        ensures
            final(self).wf(),
            sub@ == (Table::Observers, old(self).observers().len() as usize),
            final(self).observers() == old(self).observers().push(
                Registration { key, value: (), active: false, removed: false },
            ),
            scheduled(*old(self), *final(self), Deferred::Activate { table: Table::Observers, id: sub@.1 }),
            final(self).entities() == old(self).entities(),
            final(self).listeners() == old(self).listeners(),
            final(self).releases() == old(self).releases(),
            final(self).depth() == old(self).depth(),
            final(self).flushing() == old(self).flushing(),
            final(self).graph() == old(self).graph(),
    {
        let id = self.observers.insert(key, ());
        self.schedule_activation(Deferred::Activate { table: Table::Observers, id });
        Subscription { table: Table::Observers, id }
    }

    /// Registers a listener for events of kind `kind` from `key`; it goes live as
    /// `observe`'s observers do, never for an event of the update that made it.
    pub fn subscribe(&mut self, key: Emitter, kind: u64) -> (sub: Subscription)
        requires
            old(self).wf(),
            old(self).listeners().len() < usize::MAX,
        ensures
            final(self).wf(),
            sub@ == (Table::Listeners, old(self).listeners().len() as usize),
            final(self).listeners() == old(self).listeners().push(
                Registration { key, value: kind, active: false, removed: false },
            ),
            scheduled(*old(self), *final(self), Deferred::Activate { table: Table::Listeners, id: sub@.1 }),
            final(self).entities() == old(self).entities(),
            final(self).observers() == old(self).observers(),
            final(self).releases() == old(self).releases(),
            final(self).depth() == old(self).depth(),
            final(self).flushing() == old(self).flushing(),
            final(self).graph() == old(self).graph(),
    {
        let id = self.listeners.insert(key, kind);
        self.schedule_activation(Deferred::Activate { table: Table::Listeners, id });
        Subscription { table: Table::Listeners, id }
    }

    /// Registers a release listener of an entity: it receives the entity's final
    /// value when the entity is finalized.
    pub fn on_release(&mut self, h: &Handle) -> (sub: Subscription)
        requires
            old(self).wf(),
            old(self).releases().len() < usize::MAX,
        ensures
            final(self).wf(),
            sub@ == (Table::Releases, old(self).releases().len() as usize),
            final(self).releases() == old(self).releases().push(
                Registration { key: Emitter::Entity(h@), value: (), active: false, removed: false },
            ),
            scheduled(*old(self), *final(self), Deferred::Activate { table: Table::Releases, id: sub@.1 }),
            final(self).entities() == old(self).entities(),
            final(self).observers() == old(self).observers(),
            final(self).listeners() == old(self).listeners(),
            final(self).depth() == old(self).depth(),
            final(self).flushing() == old(self).flushing(),
            final(self).graph() == old(self).graph(),
    {
        let id = self.releases.insert(Emitter::Entity(h.id()), ());
        self.schedule_activation(Deferred::Activate { table: Table::Releases, id });
        Subscription { table: Table::Releases, id }
    }

    /// Whether the registration behind a guard is still in its table.
    pub fn is_subscribed(&self, sub: &Subscription) -> (b: bool)
        ensures
            b == match sub@.0 {
                Table::Observers => sub@.1 < self.observers().len() && !self.observers()[sub@.1 as int].removed,
                Table::Listeners => sub@.1 < self.listeners().len() && !self.listeners()[sub@.1 as int].removed,
                Table::Releases => sub@.1 < self.releases().len() && !self.releases()[sub@.1 as int].removed,
            },
    {
        match sub.table {
            Table::Observers => self.observers.is_registered(sub.id),
            Table::Listeners => self.listeners.is_registered(sub.id),
            Table::Releases => self.releases.is_registered(sub.id),
        }
    }

    /// Destroys a guard without `detach`: its registration is removed.
    pub fn unsubscribe(&mut self, sub: Subscription)
        requires
            old(self).wf(),
        ensures
            final(self).wf(),
            final(self).observers() == if sub@.0 == Table::Observers {
                unregistered(old(self).observers(), sub@.1)
            } else {
                old(self).observers()
            },
            final(self).listeners() == if sub@.0 == Table::Listeners {
                unregistered(old(self).listeners(), sub@.1)
            } else {
                old(self).listeners()
            },
            final(self).releases() == if sub@.0 == Table::Releases {
                unregistered(old(self).releases(), sub@.1)
            } else {
                old(self).releases()
            },
            final(self).entities() == old(self).entities(),
            final(self).queue() == old(self).queue(),
            final(self).depth() == old(self).depth(),
            final(self).flushing() == old(self).flushing(),
            final(self).activations() == old(self).activations(),
            final(self).graph() == old(self).graph(),
    {
        match sub.table {
            Table::Observers => self.observers.unregister(sub.id),
            Table::Listeners => self.listeners.unregister(sub.id),
            Table::Releases => self.releases.unregister(sub.id),
        }
    }

    /// Finalizes every dropped entity: its subscriptions go, and a `Released`
    /// record hands its final value to its release listeners.
    fn finalize_dropped(&mut self) -> (log: Vec<Dispatch<V, P>>)
        requires
            old(self).wf(),
        ensures
            final(self).wf(),
            finalize_post(*old(self), *final(self), log@),
    {
        let mut batch = self.entities.take_dropped();
        let ghost gone = old(self).entities().pending();
        let ghost all = batch@;
        let mut log: Vec<Dispatch<V, P>> = Vec::new();
        let mut j: usize = 0;
        let n = batch.len();
        while batch.len() > 0
            invariant
                self.wf(),
                all.len() == n,
                take_dropped_post(old(self).entities(), self.entities(), all),
                gone == old(self).entities().pending(),
                gone.no_duplicates(),
                all.len() == gone.len(),
                j + batch@.len() == all.len(),
                batch@ == all.subrange(j as int, all.len() as int),
                log@.len() == j,
                forall|k: int| 0 <= k < j ==> released_as(#[trigger] log@[k], all[k], old(self).releases()),
                self.observers() == strip(old(self).observers(), gone.subrange(0, j as int)),
                self.listeners() == strip(old(self).listeners(), gone.subrange(0, j as int)),
                self.releases() == strip(old(self).releases(), gone.subrange(0, j as int)),
                self.queue() == old(self).queue(),
                self.depth() == old(self).depth(),
                self.flushing() == old(self).flushing(),
                self.activations() == old(self).activations(),
                self.graph() == old(self).graph(),
            decreases batch@.len(),
        {
            let (id, value) = batch.remove(0);
            proof {
                assert(all[j as int] == (id, value));
                assert(gone[j as int] == id);
                assert(!gone.subrange(0, j as int).contains(id)) by {
                    if gone.subrange(0, j as int).contains(id) {
                        let k = choose|k: int| 0 <= k < j && gone.subrange(0, j as int)[k] == id;
                        assert(gone[k] == gone[j as int]);
                    }
                }
                lemma_strip_keeps_others(old(self).releases(), gone.subrange(0, j as int), id);
                assert(gone.subrange(0, j + 1) == gone.subrange(0, j as int).push(id));
            }
            let ghost o0 = self.observers();
            let ghost l0 = self.listeners();
            let ghost r0 = self.releases();
            let _ = self.observers.remove_key(Emitter::Entity(id));
            let _ = self.listeners.remove_key(Emitter::Entity(id));
            let listeners = self.releases.remove_key(Emitter::Entity(id));
            proof {
                lemma_strip_push(old(self).observers(), gone.subrange(0, j as int), id, self.observers());
                lemma_strip_push(old(self).listeners(), gone.subrange(0, j as int), id, self.listeners());
                lemma_strip_push(old(self).releases(), gone.subrange(0, j as int), id, self.releases());
            }
            log.push(Dispatch::Released { entity: id, value, listeners });
            j = j + 1;
            proof {
                assert(batch@ =~= all.subrange(j as int, all.len() as int));
            }
        }
        proof {
            assert(gone.subrange(0, j as int) == gone);
        }
        log
    }

    /// Applies the effect at the front of the queue.
    fn apply_front(&mut self) -> (d: Option<Dispatch<V, P>>)
        requires
            old(self).wf(),
            old(self).queue().len() > 0,
        ensures
            final(self).wf(),
            final(self).queue() == old(self).queue().subrange(1, old(self).queue().len() as int),
            final(self).entities() == old(self).entities(),
            final(self).depth() == old(self).depth(),
            final(self).flushing() == old(self).flushing(),
            final(self).activations() == old(self).activations(),
            final(self).graph() == old(self).graph(),
            apply_post(*old(self), *final(self), old(self).queue()[0], d),
    {
        let e = self.queue.pop_front();
        proof {
            let q0 = old(self).queue();
            let q = self.queue();
            assert forall|a: int, b: int, m: Emitter|
                0 <= a < q.len() && 0 <= b < q.len() && #[trigger] notifies(q[a], m)
                    && #[trigger] notifies(q[b], m) implies a == b by {
                assert(q[a] == q0[a + 1] && q[b] == q0[b + 1]);
                assert(notifies(q0[a + 1], m) && notifies(q0[b + 1], m));
            }
        }
        match e {
            Some(Effect::Notify { emitter }) => {
                let observers = self.observers.receivers(emitter);
                Some(Dispatch::Notified { emitter, observers })
            },
            Some(Effect::Emit { emitter, kind, payload }) => {
                let listeners = self.listeners.receivers_of_kind(emitter, kind);
                Some(Dispatch::Emitted { emitter, kind, payload, listeners })
            },
            Some(Effect::Defer { action: Deferred::Activate { table, id } }) => {
                match table {
                    Table::Observers => self.observers.activate(id),
                    Table::Listeners => self.listeners.activate(id),
                    Table::Releases => self.releases.activate(id),
                }
                None
            },
            Some(Effect::Defer { action: Deferred::Callback { token } }) => {
                Some(Dispatch::Called { token })
            },
            None => None,
        }
    }

    /// Runs the flush loop: finalize what was dropped, then apply the next effect,
    /// until neither is left.
    fn flush(&mut self) -> (log: Vec<Dispatch<V, P>>)
        requires
            old(self).wf(),
        ensures
            final(self).wf(),
            flush_post(*old(self), *final(self)),
            final(self).depth() == old(self).depth(),
            final(self).flushing() == old(self).flushing(),
            final(self).activations() == old(self).activations(),
            exists|states: Seq<PlatformContext<V, P>>, mids: Seq<PlatformContext<V, P>>, fins: Seq<Seq<Dispatch<V, P>>>, ds: Seq<Option<Dispatch<V, P>>>|
                {
                    &&& flush_run(states, mids, fins, ds)
                    &&& states[0] == *old(self)
                    &&& states.last() == *final(self)
                    &&& log@ == run_log(fins, ds)
                },
    {
        let mut log = self.finalize_dropped();
        let ghost fin = self.entities();
        let ghost mut states: Seq<PlatformContext<V, P>> = seq![*old(self)];
        let ghost mut mids: Seq<PlatformContext<V, P>> = seq![*self];
        let ghost mut fins: Seq<Seq<Dispatch<V, P>>> = seq![log@];
        let ghost mut ds: Seq<Option<Dispatch<V, P>>> = Seq::empty();
        proof {
            assert(run_log(fins.subrange(0, 0), ds) =~= Seq::<Dispatch<V, P>>::empty()) by {
                assert(Seq::new(0, |k: int| fins[k] + opt_seq(ds[k])) =~= Seq::<Seq<Dispatch<V, P>>>::empty());
            }
            assert(log@ =~= run_log(fins.subrange(0, 0), ds) + fins.last());
        }
        while self.queue.len() > 0
            invariant
                self.wf(),
                self.entities().slots() == fin.slots(),
                self.entities().pending() == fin.pending(),
                fin.pending() == Seq::<usize>::empty(),
                forall|i: int| 0 <= i < fin.slots().len() ==> #[trigger] fin.slots()[i] == (
                    if old(self).entities().pending().contains(i as usize) { Slot::Finalized } else { old(self).entities().slots()[i] }),
                fin.slots().len() == old(self).entities().slots().len(),
                self.depth() == old(self).depth(),
                self.flushing() == old(self).flushing(),
                self.activations() == old(self).activations(),
                self.graph() == old(self).graph(),
                states.len() == mids.len(),
                fins.len() == mids.len(),
                ds.len() + 1 == mids.len(),
                states[0] == *old(self),
                mids.last() == *self,
                forall|k: int| 0 <= k < ds.len() ==> flush_round(#[trigger] states[k], mids[k], states[k + 1], fins[k], ds[k]),
                forall|k: int| 0 <= k < ds.len() ==> (#[trigger] mids[k]).queue().len() > 0,
                finalize_post(states.last(), mids.last(), fins.last()),
                log@ == run_log(fins.subrange(0, ds.len() as int), ds) + fins.last(),
            decreases self.queue@.len(),
        {
            let ghost mid = *self;
            let d = self.apply_front();
            let ghost applied = *self;
            let ghost dd = d;
            match d {
                Some(d) => log.push(d),
                None => {},
            }
            let mut more = self.finalize_dropped();
            proof {
                reveal(flush_round);
                assert(self.entities().slots() =~= fin.slots());
                let k = ds.len() as int;
                assert(flush_round(states[k], mids[k], applied, fins[k], dd));
                let states1 = states.push(applied);
                let ds1 = ds.push(dd);
                let fins1 = fins.push(more@);
                let mids1 = mids.push(*self);
                lemma_run_log_push(fins, ds, dd);
                assert(fins1.subrange(0, ds1.len() as int) =~= fins);
                assert(fins.subrange(0, ds.len() as int).push(fins.last()) =~= fins);
                states = states1;
                ds = ds1;
                fins = fins1;
                mids = mids1;
                assert forall|j: int| 0 <= j < ds.len() implies flush_round(#[trigger] states[j], mids[j], states[j + 1], fins[j], ds[j]) by {
                    if j < k {
                        assert(states[j] == states1[j]);
                    }
                }
                assert forall|j: int| 0 <= j < ds.len() implies (#[trigger] mids[j]).queue().len() > 0 by {
                    if j < k {
                        assert(mids[j] == mids1[j]);
                    }
                }
            }
            log.append(&mut more);
            proof {
                assert(log@ =~= run_log(fins.subrange(0, ds.len() as int), ds) + fins.last());
            }
        }
        proof {
            reveal(flush_round);
            let k = ds.len() as int;
            let states1 = states.push(*self);
            let ds1 = ds.push(None);
            assert(flush_round(states[k], mids[k], *self, fins[k], None));
            lemma_run_log_push(fins, ds, None);
            assert(fins.subrange(0, ds.len() as int).push(fins.last()) =~= fins);
            assert forall|j: int| 0 <= j < ds1.len() implies flush_round(#[trigger] states1[j], mids[j], states1[j + 1], fins[j], ds1[j]) by {
                if j < k {
                    assert(states1[j] == states[j]);
                }
            }
            assert(log@ =~= run_log(fins, ds1));
            assert(flush_run(states1, mids, fins, ds1));
            assert(self.queue() =~= Seq::<Effect<P>>::empty());
        }
        log
    }

    /// Opens an update.
    pub fn begin_update(&mut self)
        requires
            old(self).depth() < usize::MAX,
        ensures
            final(self).depth() == old(self).depth() + 1,
            final(self).flushing() == old(self).flushing(),
            final(self).activations() == old(self).activations(),
            final(self).graph() == old(self).graph(),
            final(self).entities() == old(self).entities(),
            final(self).observers() == old(self).observers(),
            final(self).listeners() == old(self).listeners(),
            final(self).releases() == old(self).releases(),
            final(self).queue() == old(self).queue(),
    {
        self.depth = self.depth + 1;
    }

    /// Closes an update. Closing the outermost one queues the held-back
    /// activations after everything the update queued; outside a flush driven
    /// step by step it then flushes the queue and returns what the flush did.
    /// Closing any other changes nothing else and returns nothing. The whole
    /// flush runs before the caller sees the log, so effects that callbacks run
    /// from it queue, and entities they drop, wait for the next update; to take
    /// them into the same flush, close with `end_update_stepwise` and drive the
    /// flush with `flush_step`.
    pub fn end_update(&mut self) -> (log: Vec<Dispatch<V, P>>)
        requires
            old(self).wf(),
            old(self).depth() > 0,
        ensures
            final(self).wf(),
            end_update_post(*old(self), *final(self), log@),
    {
        if self.depth == 1 {
            self.queue_activations();
        }
        let ghost s0 = *self;
        let log = if self.depth == 1 && !self.flushing {
            self.flush()
        } else {
            Vec::new()
        };
        let ghost s1 = *self;
        self.depth = self.depth - 1;
        proof {
            if old(self).depth() == 1 && !old(self).flushing() {
                let (states, mids, fins, ds) = choose|states: Seq<PlatformContext<V, P>>, mids: Seq<PlatformContext<V, P>>, fins: Seq<Seq<Dispatch<V, P>>>, ds: Seq<Option<Dispatch<V, P>>>|
                    {
                        &&& flush_run(states, mids, fins, ds)
                        &&& states[0] == s0
                        &&& states.last() == s1
                        &&& log@ == run_log(fins, ds)
                    };
                assert(closing_run(*old(self), *self, log@, states, mids, fins, ds));
            }
        }
        log
    }

    /// Closes an update without flushing. Where it is the outermost one and no
    /// flush is under way, the result is true and a flush begins: the caller
    /// drives it with `flush_step`, running each dispatched callback before the
    /// next step, until `is_flushed`, then calls `end_flush`. Effects that the
    /// callbacks queue, and entities that they drop, join the same flush.
    pub fn end_update_stepwise(&mut self) -> (must_flush: bool)
        requires
            old(self).wf(),
            old(self).depth() > 0,
        ensures
            final(self).wf(),
            must_flush == (old(self).depth() == 1 && !old(self).flushing()),
            final(self).depth() == old(self).depth() - 1,
            final(self).flushing() == (old(self).flushing() || must_flush),
            final(self).entities() == old(self).entities(),
            final(self).observers() == old(self).observers(),
            final(self).listeners() == old(self).listeners(),
            final(self).releases() == old(self).releases(),
            final(self).queue() == if old(self).depth() == 1 {
                old(self).queue() + defers(old(self).activations())
            } else {
                old(self).queue()
            },
            final(self).activations() == if old(self).depth() == 1 {
                Seq::<Deferred>::empty()
            } else {
                old(self).activations()
            },
            final(self).graph() == old(self).graph(),
    {
        if self.depth == 1 {
            self.queue_activations();
        }
        let must_flush = self.depth == 1 && !self.flushing;
        if must_flush {
            self.flushing = true;
        }
        self.depth = self.depth - 1;
        must_flush
    }

    /// One step of a flush driven by the caller. Where entities wait for
    /// finalization, it finalizes them all and applies nothing, so that the
    /// caller runs their release callbacks, which may drop more entities, before
    /// any further effect. Otherwise it applies the effect at the front of the
    /// queue, if there is one. Returns the finalization records and what the
    /// effect dispatched.
    pub fn flush_step(&mut self) -> (r: (Vec<Dispatch<V, P>>, Option<Dispatch<V, P>>))
        requires
            old(self).wf(),
        ensures
            final(self).wf(),
            step_post(*old(self), *final(self), r.0@, r.1),
    {
        if self.entities.pending_ids().len() > 0 {
            let fin = self.finalize_dropped();
            return (fin, None);
        }
        if self.queue.len() > 0 {
            let d = self.apply_front();
            (Vec::new(), d)
        } else {
            (Vec::new(), None)
        }
    }

    /// Whether the flush has nothing left to do: no effect queued and no entity
    /// waiting for finalization.
    pub fn is_flushed(&self) -> (b: bool)
        ensures
            b == (self.queue().len() == 0 && self.entities().pending().len() == 0),
    {
        self.queue.len() == 0 && self.entities.pending_ids().len() == 0
    }

    /// Ends a flush driven step by step.
    pub fn end_flush(&mut self)
        requires
            old(self).wf(),
        ensures
            final(self).wf(),
            !final(self).flushing(),
            final(self).depth() == old(self).depth(),
            final(self).entities() == old(self).entities(),
            final(self).observers() == old(self).observers(),
            final(self).listeners() == old(self).listeners(),
            final(self).releases() == old(self).releases(),
            final(self).queue() == old(self).queue(),
            final(self).graph() == old(self).graph(),
    {
        self.flushing = false;
    }

    /// Takes in the answers of the observers that a notification invoked:
    /// observer `ids[k]` stays registered exactly when `keep[k]` holds.
    pub fn retain_observers(&mut self, ids: &Vec<usize>, keep: &Vec<bool>)
        requires
            old(self).wf(),
            ids@.len() == keep@.len(),
        ensures
            final(self).wf(),
            final(self).observers() == answered(old(self).observers(), ids@, keep@),
            final(self).entities() == old(self).entities(),
            final(self).listeners() == old(self).listeners(),
            final(self).releases() == old(self).releases(),
            final(self).queue() == old(self).queue(),
            final(self).graph() == old(self).graph(),
            final(self).depth() == old(self).depth(),
            final(self).flushing() == old(self).flushing(),
            final(self).activations() == old(self).activations(),
    {
        self.observers.retain_answered(ids, keep)
    }

    /// Takes in the answers of the listeners that an event invoked: listener
    /// `ids[k]` stays registered exactly when `keep[k]` holds.
    pub fn retain_listeners(&mut self, ids: &Vec<usize>, keep: &Vec<bool>)
        requires
            old(self).wf(),
            ids@.len() == keep@.len(),
        ensures
            final(self).wf(),
            final(self).listeners() == answered(old(self).listeners(), ids@, keep@),
            final(self).entities() == old(self).entities(),
            final(self).observers() == old(self).observers(),
            final(self).releases() == old(self).releases(),
            final(self).queue() == old(self).queue(),
            final(self).graph() == old(self).graph(),
            final(self).depth() == old(self).depth(),
            final(self).flushing() == old(self).flushing(),
            final(self).activations() == old(self).activations(),
    {
        self.listeners.retain_answered(ids, keep)
    }

    /// Creates an atom holding `value`, with one reference.
    pub fn create_atom(&mut self, value: Value) -> (a: Atom)
        requires
            old(self).wf(),
            old(self).graph().nodes().len() < usize::MAX,
        ensures
            final(self).wf(),
            a@ == old(self).graph().nodes().len(),
            final(self).graph().nodes() == old(self).graph().nodes().push(Node::Atom { value }),
            final(self).graph().refs() == old(self).graph().refs().push(1),
            final(self).queue() == old(self).queue(),
            final(self).entities() == old(self).entities(),
            final(self).observers() == old(self).observers(),
            final(self).listeners() == old(self).listeners(),
            final(self).releases() == old(self).releases(),
            final(self).depth() == old(self).depth(),
            final(self).flushing() == old(self).flushing(),
            final(self).activations() == old(self).activations(),
    {
        let key = self.graph.reserve();
        self.graph.insert(key, Node::Atom { value });
        proof {
            assert(self.graph().nodes() =~= old(self).graph().nodes().push(Node::Atom { value }));
        }
        Atom::new(key)
    }

    /// Creates a selector computed by `formula`, with one reference.
    pub fn create_selector(&mut self, formula: Formula) -> (sel: Selector)
        requires
            old(self).wf(),
            old(self).graph().nodes().len() < usize::MAX,
        ensures
            final(self).wf(),
            sel@ == old(self).graph().nodes().len(),
            final(self).graph().nodes() == old(self).graph().nodes().push(Node::Selector { formula }),
            final(self).graph().refs() == old(self).graph().refs().push(1),
            final(self).queue() == old(self).queue(),
            final(self).entities() == old(self).entities(),
            final(self).observers() == old(self).observers(),
            final(self).listeners() == old(self).listeners(),
            final(self).releases() == old(self).releases(),
            final(self).depth() == old(self).depth(),
            final(self).flushing() == old(self).flushing(),
            final(self).activations() == old(self).activations(),
    {
        let key = self.graph.reserve();
        self.graph.insert(key, Node::Selector { formula });
        proof {
            assert(self.graph().nodes() =~= old(self).graph().nodes().push(Node::Selector { formula }));
        }
        Selector::new(key)
    }

    /// A copy of an atom's value. The atom must be installed and not checked out.
    pub fn read_atom(&self, a: &Atom) -> (r: Value)
        requires
            a@ < self.graph().nodes().len(),
            self.graph().nodes()[a@ as int] is Atom,
        ensures
            r@ == self.graph().nodes()[a@ as int]->value@,
    {
        self.graph.read(a.key())
    }

    /// Replaces an atom's value; the atom must be installed and not checked out.
    /// Only where `notify` is set are the atom's observers notified: a write
    /// without it is silent.
    pub fn write_atom(&mut self, a: &Atom, value: Value, notify: bool)
        requires
            old(self).wf(),
            a@ < old(self).graph().nodes().len(),
            old(self).graph().nodes()[a@ as int] is Atom,
        ensures
            final(self).wf(),
            final(self).graph().refs() == old(self).graph().refs(),
            final(self).graph().nodes() == old(self).graph().nodes().update(a@ as int, Node::Atom { value }),
            final(self).queue() == if notify {
                pushed(old(self).queue(), Effect::Notify { emitter: Emitter::Node(a@) })
            } else {
                old(self).queue()
            },
            final(self).entities() == old(self).entities(),
            final(self).observers() == old(self).observers(),
            final(self).listeners() == old(self).listeners(),
            final(self).releases() == old(self).releases(),
            final(self).depth() == old(self).depth(),
            final(self).flushing() == old(self).flushing(),
            final(self).activations() == old(self).activations(),
    {
        self.graph.write(a.key(), value);
        if notify {
            self.push_effect(Effect::Notify { emitter: Emitter::Node(a.key()) });
        }
    }

    /// Checks an atom's value out for an update. The atom must be installed and
    /// not already checked out: a second lease is a contract violation.
    pub fn lease_atom(&mut self, a: &Atom) -> (r: Value)
        requires
            old(self).wf(),
            a@ < old(self).graph().nodes().len(),
            old(self).graph().nodes()[a@ as int] is Atom,
        ensures
            final(self).wf(),
            final(self).graph().refs() == old(self).graph().refs(),
            old(self).graph().nodes()[a@ as int] == (Node::Atom { value: r }),
            final(self).graph().nodes() == old(self).graph().nodes().update(a@ as int, Node::Held),
            final(self).queue() == old(self).queue(),
            final(self).entities() == old(self).entities(),
            final(self).observers() == old(self).observers(),
            final(self).listeners() == old(self).listeners(),
            final(self).releases() == old(self).releases(),
            final(self).depth() == old(self).depth(),
            final(self).flushing() == old(self).flushing(),
            final(self).activations() == old(self).activations(),
    {
        self.graph.lease(a.key())
    }

    /// Checks an atom's value out where that is allowed: an atom already checked
    /// out fails with `Reentrant`, the same way on every attempt, and a failure
    /// changes nothing.
    pub fn try_lease_atom(&mut self, a: &Atom) -> (r: Result<Value, GraphError>)
        requires
            old(self).wf(),
        ensures
            final(self).wf(),
            final(self).graph().refs() == old(self).graph().refs(),
            match r {
                Ok(v) => a@ < old(self).graph().nodes().len() && old(self).graph().nodes()[a@ as int]
                    == (Node::Atom { value: v }) && final(self).graph().nodes()
                    == old(self).graph().nodes().update(a@ as int, Node::Held),
                Err(e) => final(self).graph().nodes() == old(self).graph().nodes() && e == if is_held(
                    old(self).graph().nodes(),
                    a@,
                ) {
                    GraphError::Reentrant
                } else {
                    GraphError::Missing
                },
            },
            r is Ok <==> (a@ < old(self).graph().nodes().len() && old(self).graph().nodes()[a@ as int] is Atom),
            final(self).queue() == old(self).queue(),
            final(self).entities() == old(self).entities(),
            final(self).observers() == old(self).observers(),
            final(self).listeners() == old(self).listeners(),
            final(self).releases() == old(self).releases(),
            final(self).depth() == old(self).depth(),
            final(self).flushing() == old(self).flushing(),
            final(self).activations() == old(self).activations(),
    {
        self.graph.try_lease(a.key())
    }

    /// Puts a checked-out atom value back, notifying its observers where `notify`
    /// is set.
    pub fn end_atom_lease(&mut self, a: &Atom, value: Value, notify: bool)
        requires
            old(self).wf(),
            is_held(old(self).graph().nodes(), a@),
        ensures
            final(self).wf(),
            final(self).graph().refs() == old(self).graph().refs(),
            final(self).graph().nodes() == old(self).graph().nodes().update(a@ as int, Node::Atom { value }),
            final(self).queue() == if notify {
                pushed(old(self).queue(), Effect::Notify { emitter: Emitter::Node(a@) })
            } else {
                old(self).queue()
            },
            final(self).entities() == old(self).entities(),
            final(self).observers() == old(self).observers(),
            final(self).listeners() == old(self).listeners(),
            final(self).releases() == old(self).releases(),
            final(self).depth() == old(self).depth(),
            final(self).flushing() == old(self).flushing(),
            final(self).activations() == old(self).activations(),
    {
        self.graph.end_lease(a.key(), value);
        if notify {
            self.push_effect(Effect::Notify { emitter: Emitter::Node(a.key()) });
        }
    }

    /// Gives up one reference to a node.
    pub fn release_node(&mut self, key: usize)
        requires
            old(self).wf(),
        ensures
            final(self).wf(),
            final(self).graph().nodes() == old(self).graph().nodes(),
            final(self).graph().refs() == if key < old(self).graph().refs().len() && old(self).graph().refs()[key as int] > 0 {
                old(self).graph().refs().update(key as int, (old(self).graph().refs()[key as int] - 1) as u64)
            } else {
                old(self).graph().refs()
            },
            final(self).queue() == old(self).queue(),
            final(self).entities() == old(self).entities(),
            final(self).observers() == old(self).observers(),
            final(self).listeners() == old(self).listeners(),
            final(self).releases() == old(self).releases(),
            final(self).depth() == old(self).depth(),
            final(self).flushing() == old(self).flushing(),
            final(self).activations() == old(self).activations(),
    {
        self.graph.release(key)
    }

    /// Takes a node out of the graph. Only an installed node that is not checked
    /// out and that nothing refers to any more may be removed.
    pub fn remove_node(&mut self, key: usize)
        requires
            old(self).wf(),
            key < old(self).graph().nodes().len(),
            old(self).graph().nodes()[key as int] is Atom || old(self).graph().nodes()[key as int] is Selector,
            old(self).graph().refs()[key as int] == 0,
        ensures
            final(self).wf(),
            final(self).graph().refs() == old(self).graph().refs(),
            final(self).graph().nodes() == old(self).graph().nodes().update(key as int, Node::Removed),
            final(self).queue() == old(self).queue(),
            final(self).entities() == old(self).entities(),
            final(self).observers() == old(self).observers(),
            final(self).listeners() == old(self).listeners(),
            final(self).releases() == old(self).releases(),
            final(self).depth() == old(self).depth(),
            final(self).flushing() == old(self).flushing(),
            final(self).activations() == old(self).activations(),
    {
        self.graph.remove(key)
    }

    /// The graph, for inspection.
    pub fn graph_map(&self) -> (r: &SelectorImMap)
        ensures
            *r == self.graph(),
    {
        &self.graph
    }
}

} // verus!

verus! {

/// Whether registration `id` of table `t` is live.
pub open spec fn is_live<V, P>(c: PlatformContext<V, P>, t: Table, id: usize) -> bool {
    match t {
        Table::Observers => id < c.observers().len() && c.observers()[id as int].active,
        Table::Listeners => id < c.listeners().len() && c.listeners()[id as int].active,
        Table::Releases => id < c.releases().len() && c.releases()[id as int].active,
    }
}

/// A registration that is not live receives nothing from the effect being
/// applied, and only its own activation makes it live. Since `observe` and
/// `subscribe` queue that activation last, no effect queued before a subscription
/// was made reaches it.
pub proof fn lemma_inactive_receives_nothing<V, P>(
    before: PlatformContext<V, P>,
    after: PlatformContext<V, P>,
    e: Effect<P>,
    d: Option<Dispatch<V, P>>,
    t: Table,
    id: usize,
)
    requires
        apply_post(before, after, e, d),
        !is_live(before, t, id),
    ensures
        t == Table::Observers ==> !(d matches Some(Dispatch::Notified { observers, .. })
            && observers@.contains(id)),
        t == Table::Listeners ==> !(d matches Some(Dispatch::Emitted { listeners, .. })
            && listeners@.contains(id)),
        e != (Effect::<P>::Defer { action: Deferred::Activate { table: t, id } }) ==> !is_live(after, t, id),
{
    match e {
        Effect::Notify { emitter } => {
            if t == Table::Observers {
                match d {
                    Some(Dispatch::Notified { observers, .. }) => {
                        if observers@.contains(id) {
                            let k = choose|k: int| 0 <= k < observers@.len() && observers@[k] == id;
                            assert(receiving(before.observers(), emitter)[observers@[k] as int]);
                        }
                    },
                    _ => {},
                }
            }
        },
        Effect::Emit { emitter, kind, .. } => {
            if t == Table::Listeners {
                match d {
                    Some(Dispatch::Emitted { listeners, .. }) => {
                        if listeners@.contains(id) {
                            let k = choose|k: int| 0 <= k < listeners@.len() && listeners@[k] == id;
                            assert(receiving_kind(before.listeners(), emitter, kind)[listeners@[k] as int]);
                        }
                    },
                    _ => {},
                }
            }
        },
        Effect::Defer { action } => {},
    }
}

/// Finalizing dropped entities makes no registration live.
pub proof fn lemma_finalize_activates_nothing<V, P>(
    before: PlatformContext<V, P>,
    after: PlatformContext<V, P>,
    log: Seq<Dispatch<V, P>>,
    t: Table,
    id: usize,
)
    requires
        finalize_post(before, after, log),
        !is_live(before, t, id),
    ensures
        !is_live(after, t, id),
{
}

/// Closing an update nested at any depth flushes nothing: the queue, the
/// entities and the tables stay as they were, and nothing is reported.
pub proof fn lemma_inner_update_never_flushes<V, P>(
    before: PlatformContext<V, P>,
    after: PlatformContext<V, P>,
    log: Seq<Dispatch<V, P>>,
)
    requires
        before.depth() > 1,
        end_update_post(before, after, log),
    ensures
        log.len() == 0,
        after.depth() == before.depth() - 1,
        after.queue() == before.queue(),
        after.entities() == before.entities(),
        after.observers() == before.observers(),
        after.listeners() == before.listeners(),
        after.releases() == before.releases(),
{
}

/// Nested updates flush once: closing the inner update leaves the queue and
/// everything else as it was and reports nothing; closing the outermost one then
/// drains the queue.
pub proof fn lemma_nested_updates_flush_once<V, P>(
    inner_open: PlatformContext<V, P>,
    outer_open: PlatformContext<V, P>,
    closed: PlatformContext<V, P>,
    inner_log: Seq<Dispatch<V, P>>,
    outer_log: Seq<Dispatch<V, P>>,
)
    requires
        inner_open.depth() == 2,
        !inner_open.flushing(),
        end_update_post(inner_open, outer_open, inner_log),
        end_update_post(outer_open, closed, outer_log),
    ensures
        inner_log.len() == 0,
        outer_open.queue() == inner_open.queue(),
        outer_open.entities() == inner_open.entities(),
        outer_open.depth() == 1,
        closed.queue() == Seq::<Effect<P>>::empty(),
        closed.entities().pending() == Seq::<usize>::empty(),
        closed.depth() == 0,
{
}

} // verus!

verus! {

/// Whether `d` hands something to registration `id` of table `t`.
pub open spec fn delivers<V, P>(d: Option<Dispatch<V, P>>, t: Table, id: usize) -> bool {
    ||| t == Table::Observers && (d matches Some(Dispatch::Notified { observers, .. })
        && observers@.contains(id))
    ||| t == Table::Listeners && (d matches Some(Dispatch::Emitted { listeners, .. })
        && listeners@.contains(id))
}

/// One round that starts with a non-empty queue whose front effect does not
/// activate registration `id` of table `t`, not live before: the front effect
/// goes, the registration receives nothing and stays not live.
proof fn lemma_round_skips_inactive<V, P>(
    before: PlatformContext<V, P>,
    mid: PlatformContext<V, P>,
    after: PlatformContext<V, P>,
    fin: Seq<Dispatch<V, P>>,
    d: Option<Dispatch<V, P>>,
    t: Table,
    id: usize,
)
    requires
        flush_round(before, mid, after, fin, d),
        !is_live(before, t, id),
        before.queue().len() > 0,
        before.queue()[0] != (Effect::<P>::Defer { action: Deferred::Activate { table: t, id } }),
    ensures
        after.queue() == before.queue().subrange(1, before.queue().len() as int),
        !is_live(after, t, id),
        !delivers(d, t, id),
{
    reveal(flush_round);
    lemma_finalize_activates_nothing(before, mid, fin, t, id);
    lemma_inactive_receives_nothing(mid, after, mid.queue()[0], d, t, id);
}

/// Through the first `k` rounds of a flush, round by round: the queue loses its
/// front effect, and a registration that was not live stays so while its
/// activation has not come up.
proof fn lemma_rounds_before_activation<V, P>(
    states: Seq<PlatformContext<V, P>>,
    mids: Seq<PlatformContext<V, P>>,
    fins: Seq<Seq<Dispatch<V, P>>>,
    ds: Seq<Option<Dispatch<V, P>>>,
    t: Table,
    id: usize,
    m: int,
    k: int,
)
    requires
        flush_run(states, mids, fins, ds),
        !is_live(states[0], t, id),
        0 <= k <= m <= states[0].queue().len(),
        forall|j: int|
            0 <= j < m ==> states[0].queue()[j] != (Effect::<P>::Defer {
                action: Deferred::Activate { table: t, id },
            }),
    ensures
        k < states.len(),
        states[k].queue() == states[0].queue().subrange(k, states[0].queue().len() as int),
        !is_live(states[k], t, id),
        forall|j: int| 0 <= j < k ==> !delivers(#[trigger] ds[j], t, id),
    decreases k,
{
    if k > 0 {
        lemma_rounds_before_activation(states, mids, fins, ds, t, id, m, k - 1);
        let j = k - 1;
        let q0 = states[0].queue();
        assert(states[j].queue()[0] == q0[j]);
        assert(j < mids.len()) by {
            if j == mids.len() {
                assert(states[j].queue().len() == 0);
            }
        }
        assert(flush_round(states[j], mids[j], states[j + 1], fins[j], ds[j]));
        lemma_round_skips_inactive(states[j], mids[j], states[j + 1], fins[j], ds[j], t, id);
        assert(states[k].queue() =~= q0.subrange(k, q0.len() as int));
        assert forall|i: int| 0 <= i < k implies !delivers(#[trigger] ds[i], t, id) by {
            if i == j {
                assert(!delivers(ds[j], t, id));
            }
        }
    }
}

/// No registration receives an effect that was queued before its activation:
/// given a flush that starts with the registration not live, and whose first `m`
/// queued effects do not activate it, none of the first `m` rounds hands it
/// anything. `observe` and `subscribe` queue the activation after every effect
/// queued earlier in the same update.
pub proof fn lemma_no_delivery_before_activation<V, P>(
    states: Seq<PlatformContext<V, P>>,
    mids: Seq<PlatformContext<V, P>>,
    fins: Seq<Seq<Dispatch<V, P>>>,
    ds: Seq<Option<Dispatch<V, P>>>,
    t: Table,
    id: usize,
    m: int,
)
    requires
        flush_run(states, mids, fins, ds),
        !is_live(states[0], t, id),
        0 <= m <= states[0].queue().len(),
        forall|j: int|
            0 <= j < m ==> states[0].queue()[j] != (Effect::<P>::Defer {
                action: Deferred::Activate { table: t, id },
            }),
    ensures
        forall|j: int| 0 <= j < m ==> !delivers(#[trigger] ds[j], t, id),
{
    lemma_rounds_before_activation(states, mids, fins, ds, t, id, m, m);
}

} // verus!

verus! {

/// Whether `d` reports the observers of `m` as notified.
pub open spec fn notified_in<V, P>(d: Option<Dispatch<V, P>>, m: Emitter) -> bool {
    d matches Some(Dispatch::Notified { emitter, .. }) && emitter == m
}

/// A round that starts with a non-empty queue applies its front effect.
proof fn lemma_round_applies_front<V, P>(
    before: PlatformContext<V, P>,
    mid: PlatformContext<V, P>,
    after: PlatformContext<V, P>,
    fin: Seq<Dispatch<V, P>>,
    d: Option<Dispatch<V, P>>,
    m: Emitter,
)
    requires
        flush_round(before, mid, after, fin, d),
        before.queue().len() > 0,
    ensures
        after.queue() == before.queue().subrange(1, before.queue().len() as int),
        notified_in(d, m) <==> notifies(before.queue()[0], m),
{
    reveal(flush_round);
}

/// A round that starts with an empty queue reports no notification.
proof fn lemma_round_on_empty_queue<V, P>(
    before: PlatformContext<V, P>,
    mid: PlatformContext<V, P>,
    after: PlatformContext<V, P>,
    fin: Seq<Dispatch<V, P>>,
    d: Option<Dispatch<V, P>>,
)
    requires
        flush_round(before, mid, after, fin, d),
        before.queue().len() == 0,
    ensures
        d is None,
{
    reveal(flush_round);
}

/// The first `k` rounds of a flush apply the first `k` queued effects, in order.
proof fn lemma_rounds_follow_queue<V, P>(
    states: Seq<PlatformContext<V, P>>,
    mids: Seq<PlatformContext<V, P>>,
    fins: Seq<Seq<Dispatch<V, P>>>,
    ds: Seq<Option<Dispatch<V, P>>>,
    m: Emitter,
    k: int,
)
    requires
        flush_run(states, mids, fins, ds),
        0 <= k <= states[0].queue().len(),
    ensures
        k < states.len(),
        states[k].queue() == states[0].queue().subrange(k, states[0].queue().len() as int),
        forall|j: int| 0 <= j < k ==> (notified_in(#[trigger] ds[j], m) <==> notifies(states[0].queue()[j], m)),
    decreases k,
{
    if k > 0 {
        lemma_rounds_follow_queue(states, mids, fins, ds, m, k - 1);
        let j = k - 1;
        let q0 = states[0].queue();
        assert(states[j].queue()[0] == q0[j]);
        assert(j < mids.len()) by {
            if j == mids.len() {
                assert(states[j].queue().len() == 0);
            }
        }
        assert(flush_round(states[j], mids[j], states[j + 1], fins[j], ds[j]));
        lemma_round_applies_front(states[j], mids[j], states[j + 1], fins[j], ds[j], m);
        assert(states[k].queue() =~= q0.subrange(k, q0.len() as int));
    }
}

/// One flush notifies the observers of an emitter once if a notification of it
/// was queued, and never twice: repeated notifications of one emitter within an
/// update collapse into a single dispatch.
pub proof fn lemma_one_notification_per_flush<V, P>(
    states: Seq<PlatformContext<V, P>>,
    mids: Seq<PlatformContext<V, P>>,
    fins: Seq<Seq<Dispatch<V, P>>>,
    ds: Seq<Option<Dispatch<V, P>>>,
    m: Emitter,
)
    requires
        flush_run(states, mids, fins, ds),
        single_notify(states[0].queue()),
    ensures
        forall|a: int, b: int|
            0 <= a < ds.len() && 0 <= b < ds.len() && notified_in(#[trigger] ds[a], m) && notified_in(
                #[trigger] ds[b],
                m,
            ) ==> a == b,
        notify_queued(states[0].queue(), m) <==> exists|k: int| 0 <= k < ds.len() && #[trigger] notified_in(ds[k], m),
{
    let q0 = states[0].queue();
    let n = q0.len() as int;
    lemma_rounds_follow_queue(states, mids, fins, ds, m, n);
    assert(forall|j: int| n <= j < ds.len() ==> !notified_in(#[trigger] ds[j], m)) by {
        assert forall|j: int| n <= j < ds.len() implies !notified_in(#[trigger] ds[j], m) by {
            assert(states[n].queue().len() == 0);
            assert(j == n) by {
                if j > n {
                    assert(flush_round(states[n], mids[n], states[n + 1], fins[n], ds[n]));
                    assert(mids[n].queue().len() > 0);
                    reveal(flush_round);
                }
            }
            assert(flush_round(states[n], mids[n], states[n + 1], fins[n], ds[n]));
            lemma_round_on_empty_queue(states[n], mids[n], states[n + 1], fins[n], ds[n]);
        }
    }
    assert forall|a: int, b: int|
        0 <= a < ds.len() && 0 <= b < ds.len() && notified_in(#[trigger] ds[a], m) && notified_in(
            #[trigger] ds[b],
            m,
        ) implies a == b by {
        assert(a < n && b < n);
        assert(notifies(q0[a], m) && notifies(q0[b], m));
    }
    if notify_queued(q0, m) {
        let k = choose|k: int| 0 <= k < q0.len() && #[trigger] notifies(q0[k], m);
        assert(notified_in(ds[k], m));
    }
    if exists|k: int| 0 <= k < ds.len() && #[trigger] notified_in(ds[k], m) {
        let k = choose|k: int| 0 <= k < ds.len() && #[trigger] notified_in(ds[k], m);
        assert(k < n);
        assert(notifies(q0[k], m));
    }
}

} // verus!

verus! {

/// The run of a flush that closes the outermost update, as `end_update_post`
/// gives it.
pub open spec fn closing_run<V, P>(
    before: PlatformContext<V, P>,
    after: PlatformContext<V, P>,
    log: Seq<Dispatch<V, P>>,
    states: Seq<PlatformContext<V, P>>,
    mids: Seq<PlatformContext<V, P>>,
    fins: Seq<Seq<Dispatch<V, P>>>,
    ds: Seq<Option<Dispatch<V, P>>>,
) -> bool {
    &&& flush_run(states, mids, fins, ds)
    &&& states[0].wf()
    &&& states[0].queue() == before.queue() + defers(before.activations())
    &&& states[0].entities() == before.entities()
    &&& states[0].observers() == before.observers()
    &&& states[0].listeners() == before.listeners()
    &&& states[0].releases() == before.releases()
    &&& states[0].graph() == before.graph()
    &&& states.last().entities() == after.entities()
    &&& states.last().observers() == after.observers()
    &&& states.last().listeners() == after.listeners()
    &&& states.last().releases() == after.releases()
    &&& states.last().queue() == after.queue()
    &&& states.last().graph() == after.graph()
    &&& log == run_log(fins, ds)
}

/// Held-back activations notify nobody.
proof fn lemma_defers_notify_nobody<P>(q: Seq<Effect<P>>, acts: Seq<Deferred>, m: Emitter)
    ensures
        notify_queued(q + defers::<P>(acts), m) == notify_queued(q, m),
{
    let q1 = q + defers::<P>(acts);
    if notify_queued(q1, m) {
        let k = choose|k: int| 0 <= k < q1.len() && #[trigger] notifies(q1[k], m);
        if k >= q.len() {
            assert(q1[k] == defers::<P>(acts)[k - q.len()]);
        }
        assert(notifies(q[k], m));
    }
    if notify_queued(q, m) {
        let k = choose|k: int| 0 <= k < q.len() && #[trigger] notifies(q[k], m);
        assert(q1[k] == q[k]);
    }
}

/// Closing the outermost update notifies the observers of an emitter in exactly
/// one round of its flush if the update queued any notification of it, however
/// many times, and in no round otherwise.
pub proof fn lemma_update_notifies_once<V, P>(
    before: PlatformContext<V, P>,
    after: PlatformContext<V, P>,
    log: Seq<Dispatch<V, P>>,
    m: Emitter,
)
    requires
        before.depth() == 1,
        !before.flushing(),
        end_update_post(before, after, log),
    ensures
        exists|states: Seq<PlatformContext<V, P>>, mids: Seq<PlatformContext<V, P>>, fins: Seq<Seq<Dispatch<V, P>>>, ds: Seq<Option<Dispatch<V, P>>>|
            {
                &&& closing_run(before, after, log, states, mids, fins, ds)
                &&& forall|a: int, b: int|
                    0 <= a < ds.len() && 0 <= b < ds.len() && notified_in(#[trigger] ds[a], m)
                        && notified_in(#[trigger] ds[b], m) ==> a == b
                &&& (notify_queued(before.queue(), m) <==> exists|k: int| 0 <= k < ds.len() && #[trigger] notified_in(ds[k], m))
            },
{
    let (states, mids, fins, ds) = choose|states: Seq<PlatformContext<V, P>>, mids: Seq<PlatformContext<V, P>>, fins: Seq<Seq<Dispatch<V, P>>>, ds: Seq<Option<Dispatch<V, P>>>|
        closing_run(before, after, log, states, mids, fins, ds);
    lemma_one_notification_per_flush(states, mids, fins, ds, m);
    lemma_defers_notify_nobody(before.queue(), before.activations(), m);
}

} // verus!

verus! {

/// After any round nothing waits for finalization, and the round finalized as
/// many entities as were waiting before it.
proof fn lemma_round_drains<V, P>(
    before: PlatformContext<V, P>,
    mid: PlatformContext<V, P>,
    after: PlatformContext<V, P>,
    fin: Seq<Dispatch<V, P>>,
    d: Option<Dispatch<V, P>>,
)
    requires
        flush_round(before, mid, after, fin, d),
    ensures
        finalize_post(before, mid, fin),
        after.entities().pending() == Seq::<usize>::empty(),
        fin.len() == before.entities().pending().len(),
{
    reveal(flush_round);
    assert(released_pairs(fin).len() == fin.len());
}

/// From the second round of a flush on, no round finalizes anything.
proof fn lemma_later_rounds_finalize_nothing<V, P>(
    states: Seq<PlatformContext<V, P>>,
    mids: Seq<PlatformContext<V, P>>,
    fins: Seq<Seq<Dispatch<V, P>>>,
    ds: Seq<Option<Dispatch<V, P>>>,
    k: int,
)
    requires
        flush_run(states, mids, fins, ds),
        1 <= k < mids.len(),
    ensures
        fins[k].len() == 0,
{
    assert(flush_round(states[k - 1], mids[k - 1], states[k], fins[k - 1], ds[k - 1]));
    lemma_round_drains(states[k - 1], mids[k - 1], states[k], fins[k - 1], ds[k - 1]);
    assert(flush_round(states[k], mids[k], states[k + 1], fins[k], ds[k]));
    lemma_round_drains(states[k], mids[k], states[k + 1], fins[k], ds[k]);
}

/// An entity that waits for finalization when a flush begins is finalized by
/// its first round, with exactly one `Released` record, which hands its final
/// value to every release listener registered for it; no later round
/// finalizes anything, so it is never reported twice.
pub proof fn lemma_flush_releases_once<V, P>(
    states: Seq<PlatformContext<V, P>>,
    mids: Seq<PlatformContext<V, P>>,
    fins: Seq<Seq<Dispatch<V, P>>>,
    ds: Seq<Option<Dispatch<V, P>>>,
    e: usize,
)
    requires
        flush_run(states, mids, fins, ds),
        states[0].wf(),
        states[0].entities().pending().contains(e),
    ensures
        exists|j: int|
            0 <= j < fins[0].len() && (#[trigger] fins[0][j] matches Dispatch::Released { entity, value, listeners }
                && entity == e && states[0].entities().slots()[e as int] == (Slot::Dropped { value })
                && lists_exactly(listeners@, registered(states[0].releases(), Emitter::Entity(e)))),
        forall|j1: int, j2: int|
            0 <= j1 < fins[0].len() && 0 <= j2 < fins[0].len() && #[trigger] released_pairs(fins[0])[j1].0 == e
                && #[trigger] released_pairs(fins[0])[j2].0 == e ==> j1 == j2,
        forall|k: int| 1 <= k < mids.len() ==> (#[trigger] fins[k]).len() == 0,
        mids[0].entities().slots()[e as int] is Finalized,
{
    let s0 = states[0];
    let f = fins[0];
    assert(flush_round(states[0], mids[0], states[1], fins[0], ds[0]));
    lemma_round_drains(states[0], mids[0], states[1], fins[0], ds[0]);
    let pend = s0.entities().pending();
    let j = choose|j: int| 0 <= j < pend.len() && pend[j] == e;
    assert(released_pairs(f)[j].0 == pend[j]);
    assert(released_as(f[j], released_pairs(f)[j], s0.releases()));
    assert forall|j1: int, j2: int|
        0 <= j1 < f.len() && 0 <= j2 < f.len() && #[trigger] released_pairs(f)[j1].0 == e
            && #[trigger] released_pairs(f)[j2].0 == e implies j1 == j2 by {
        assert(pend[j1] == pend[j2]);
    }
    assert forall|k: int| 1 <= k < mids.len() implies (#[trigger] fins[k]).len() == 0 by {
        lemma_later_rounds_finalize_nothing(states, mids, fins, ds, k);
    }
    assert(e < s0.entities().slots().len());
}

} // verus!

verus! {

/// A live observer of an emitter, still registered, detached or not, is among
/// those that a notification of that emitter invokes.
pub proof fn lemma_live_observer_is_notified<V, P>(
    before: PlatformContext<V, P>,
    after: PlatformContext<V, P>,
    m: Emitter,
    d: Option<Dispatch<V, P>>,
    id: usize,
)
    requires
        apply_post(before, after, Effect::Notify { emitter: m }, d),
        id < before.observers().len(),
        receives(before.observers()[id as int], m),
    ensures
        d matches Some(Dispatch::Notified { observers, .. }) && observers@.contains(id),
{
    assert(receiving(before.observers(), m)[id as int]);
}

} // verus!

verus! {

/// A subscription made inside an update never receives what that update, or
/// anything before it, queued: its activation is held back (`scheduled`, from
/// `observe`, `subscribe` and `on_release`), so the flush that closes the
/// outermost update applies every queued effect before any held-back
/// activation.
pub proof fn lemma_subscription_misses_its_update<V, P>(
    before: PlatformContext<V, P>,
    after: PlatformContext<V, P>,
    log: Seq<Dispatch<V, P>>,
    t: Table,
    id: usize,
)
    requires
        before.depth() == 1,
        !before.flushing(),
        end_update_post(before, after, log),
        !is_live(before, t, id),
        forall|j: int|
            0 <= j < before.queue().len() ==> before.queue()[j] != (Effect::<P>::Defer {
                action: Deferred::Activate { table: t, id },
            }),
    ensures
        exists|states: Seq<PlatformContext<V, P>>, mids: Seq<PlatformContext<V, P>>, fins: Seq<Seq<Dispatch<V, P>>>, ds: Seq<Option<Dispatch<V, P>>>|
            {
                &&& closing_run(before, after, log, states, mids, fins, ds)
                &&& forall|j: int| 0 <= j < before.queue().len() ==> !delivers(#[trigger] ds[j], t, id)
            },
{
    let (states, mids, fins, ds) = choose|states: Seq<PlatformContext<V, P>>, mids: Seq<PlatformContext<V, P>>, fins: Seq<Seq<Dispatch<V, P>>>, ds: Seq<Option<Dispatch<V, P>>>|
        closing_run(before, after, log, states, mids, fins, ds);
    let q = before.queue();
    let q0 = states[0].queue();
    assert forall|j: int| 0 <= j < q.len() implies q0[j] != (Effect::<P>::Defer {
        action: Deferred::Activate { table: t, id },
    }) by {
        assert(q0[j] == q[j]);
    }
    lemma_no_delivery_before_activation(states, mids, fins, ds, t, id, q.len() as int);
}

} // verus!

verus! {

/// Every registration of entity `e`, in all three tables, is taken out.
pub open spec fn unregistered_everywhere<V, P>(c: PlatformContext<V, P>, e: usize) -> bool {
    &&& forall|i: int| 0 <= i < c.observers().len() && #[trigger] c.observers()[i].key == Emitter::Entity(e) ==> c.observers()[i].removed
    &&& forall|i: int| 0 <= i < c.listeners().len() && #[trigger] c.listeners()[i].key == Emitter::Entity(e) ==> c.listeners()[i].removed
    &&& forall|i: int| 0 <= i < c.releases().len() && #[trigger] c.releases()[i].key == Emitter::Entity(e) ==> c.releases()[i].removed
}

/// A round keeps the registrations of `e` taken out, and takes them out where
/// `e` waited for finalization.
proof fn lemma_round_unregisters<V, P>(
    before: PlatformContext<V, P>,
    mid: PlatformContext<V, P>,
    after: PlatformContext<V, P>,
    fin: Seq<Dispatch<V, P>>,
    d: Option<Dispatch<V, P>>,
    e: usize,
)
    requires
        flush_round(before, mid, after, fin, d),
        unregistered_everywhere(before, e) || before.entities().pending().contains(e),
    ensures
        unregistered_everywhere(after, e),
{
    reveal(flush_round);
    let gone = before.entities().pending();
    assert(unregistered_everywhere(mid, e)) by {
        assert forall|i: int| 0 <= i < mid.observers().len() && #[trigger] mid.observers()[i].key == Emitter::Entity(e) implies mid.observers()[i].removed by {
            assert(mid.observers()[i] == strip(before.observers(), gone)[i]);
        }
        assert forall|i: int| 0 <= i < mid.listeners().len() && #[trigger] mid.listeners()[i].key == Emitter::Entity(e) implies mid.listeners()[i].removed by {
            assert(mid.listeners()[i] == strip(before.listeners(), gone)[i]);
        }
        assert forall|i: int| 0 <= i < mid.releases().len() && #[trigger] mid.releases()[i].key == Emitter::Entity(e) implies mid.releases()[i].removed by {
            assert(mid.releases()[i] == strip(before.releases(), gone)[i]);
        }
    }
    if mid.queue().len() > 0 {
        match mid.queue()[0] {
            Effect::Defer { action: Deferred::Activate { table, id } } => {
                assert forall|i: int| 0 <= i < after.observers().len() && #[trigger] after.observers()[i].key == Emitter::Entity(e) implies after.observers()[i].removed by {
                    if i == id as int && table == Table::Observers {
                        assert(mid.observers()[i].removed);
                    } else {
                        assert(after.observers()[i] == mid.observers()[i]);
                    }
                }
                assert forall|i: int| 0 <= i < after.listeners().len() && #[trigger] after.listeners()[i].key == Emitter::Entity(e) implies after.listeners()[i].removed by {
                    if i == id as int && table == Table::Listeners {
                        assert(mid.listeners()[i].removed);
                    } else {
                        assert(after.listeners()[i] == mid.listeners()[i]);
                    }
                }
                assert forall|i: int| 0 <= i < after.releases().len() && #[trigger] after.releases()[i].key == Emitter::Entity(e) implies after.releases()[i].removed by {
                    if i == id as int && table == Table::Releases {
                        assert(mid.releases()[i].removed);
                    } else {
                        assert(after.releases()[i] == mid.releases()[i]);
                    }
                }
            },
            _ => {},
        }
    }
}

/// Through the rounds of a flush the registrations of `e` stay taken out once
/// they are.
proof fn lemma_rounds_unregister<V, P>(
    states: Seq<PlatformContext<V, P>>,
    mids: Seq<PlatformContext<V, P>>,
    fins: Seq<Seq<Dispatch<V, P>>>,
    ds: Seq<Option<Dispatch<V, P>>>,
    e: usize,
    k: int,
)
    requires
        flush_run(states, mids, fins, ds),
        states[0].entities().pending().contains(e),
        1 <= k < states.len(),
    ensures
        unregistered_everywhere(states[k], e),
    decreases k,
{
    assert(flush_round(states[k - 1], mids[k - 1], states[k], fins[k - 1], ds[k - 1]));
    if k > 1 {
        lemma_rounds_unregister(states, mids, fins, ds, e, k - 1);
    }
    lemma_round_unregisters(states[k - 1], mids[k - 1], states[k], fins[k - 1], ds[k - 1], e);
}

/// Closing the outermost update with an entity whose last strong handle was
/// dropped: its one `Released` record hands its final value to every release
/// listener registered for it, it is never reported again, its slot is
/// finalized, nothing waits for finalization afterwards, and no table holds a
/// registration of it.
pub proof fn lemma_update_releases_once<V, P>(
    before: PlatformContext<V, P>,
    after: PlatformContext<V, P>,
    log: Seq<Dispatch<V, P>>,
    e: usize,
)
    requires
        before.depth() == 1,
        !before.flushing(),
        end_update_post(before, after, log),
        before.entities().pending().contains(e),
    ensures
        exists|states: Seq<PlatformContext<V, P>>, mids: Seq<PlatformContext<V, P>>, fins: Seq<Seq<Dispatch<V, P>>>, ds: Seq<Option<Dispatch<V, P>>>|
            {
                &&& closing_run(before, after, log, states, mids, fins, ds)
                &&& exists|j: int|
                    0 <= j < fins[0].len() && (#[trigger] fins[0][j] matches Dispatch::Released { entity, value, listeners }
                        && entity == e && before.entities().slots()[e as int] == (Slot::Dropped { value })
                        && lists_exactly(listeners@, registered(before.releases(), Emitter::Entity(e))))
                &&& forall|j1: int, j2: int|
                    0 <= j1 < fins[0].len() && 0 <= j2 < fins[0].len() && #[trigger] released_pairs(fins[0])[j1].0 == e
                        && #[trigger] released_pairs(fins[0])[j2].0 == e ==> j1 == j2
                &&& forall|k: int| 1 <= k < mids.len() ==> (#[trigger] fins[k]).len() == 0
            },
        after.entities().slots()[e as int] is Finalized,
        after.entities().pending() == Seq::<usize>::empty(),
        unregistered_everywhere(after, e),
{
    let (states, mids, fins, ds) = choose|states: Seq<PlatformContext<V, P>>, mids: Seq<PlatformContext<V, P>>, fins: Seq<Seq<Dispatch<V, P>>>, ds: Seq<Option<Dispatch<V, P>>>|
        closing_run(before, after, log, states, mids, fins, ds);
    lemma_flush_releases_once(states, mids, fins, ds, e);
    lemma_rounds_unregister(states, mids, fins, ds, e, states.len() - 1);
    let k = states.len() - 1;
    assert(unregistered_everywhere(states[k], e));
    assert(e < before.entities().slots().len()) by {
        let j = choose|j: int| 0 <= j < before.entities().pending().len() && before.entities().pending()[j] == e;
    }
}

} // verus!
