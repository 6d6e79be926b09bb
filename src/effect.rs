use vstd::prelude::*;
use crate::subscriber::Emitter;

verus! {

/// The subscriber table that a registration belongs to.
#[derive(PartialEq, Eq, Structural, Clone, Copy, Debug)]
pub enum Table {
    Observers,
    Listeners,
    Releases,
}

/// A one-shot action run during a flush.
#[derive(PartialEq, Eq, Structural, Clone, Copy, Debug)]
pub enum Deferred {
    /// Makes a registration live.
    Activate { table: Table, id: usize },
    /// Reports `token` back to the caller, in queue order.
    Callback { token: u64 },
}

/// An action queued during an update and applied during the flush that ends it.
pub enum Effect<P> {
    Notify { emitter: Emitter },
    Emit { emitter: Emitter, kind: u64, payload: P },
    Defer { action: Deferred },
}

/// What one flush did, in order. Each list of subscribers holds registration
/// identifiers in registration order.
pub enum Dispatch<V, P> {
    /// An entity was finalized; `listeners` are its release listeners, which all
    /// receive `value`, its final value.
    Released { entity: usize, value: V, listeners: Vec<usize> },
    /// `observers` were invoked for a notification of `emitter`.
    Notified { emitter: Emitter, observers: Vec<usize> },
    /// `listeners` of kind `kind` received `payload` from `emitter`.
    Emitted { emitter: Emitter, kind: u64, payload: P, listeners: Vec<usize> },
    /// A deferred callback came due.
    Called { token: u64 },
}

/// Whether `e` notifies `m`.
pub open spec fn notifies<P>(e: Effect<P>, m: Emitter) -> bool {
    e matches Effect::Notify { emitter } && emitter == m
}

/// Whether some effect of `q` notifies `m`.
pub open spec fn notify_queued<P>(q: Seq<Effect<P>>, m: Emitter) -> bool {
    exists|k: int| 0 <= k < q.len() && #[trigger] notifies(q[k], m)
}

/// No emitter is notified twice by one queue.
pub open spec fn single_notify<P>(q: Seq<Effect<P>>) -> bool {
    forall|a: int, b: int, m: Emitter|
        0 <= a < q.len() && 0 <= b < q.len() && #[trigger] notifies(q[a], m) && #[trigger] notifies(
            q[b],
            m,
        ) ==> a == b
}

/// The number of effects of `q` that notify `m`.
pub open spec fn notify_count<P>(q: Seq<Effect<P>>, m: Emitter) -> nat
    decreases q.len(),
{
    if q.len() == 0 {
        0
    } else {
        notify_count(q.drop_last(), m) + if notifies(q.last(), m) { 1nat } else { 0nat }
    }
}

/// What `push_effect` does to a queue: a notification of an emitter that already
/// has one queued is dropped; everything else is appended.
pub open spec fn pushed<P>(q: Seq<Effect<P>>, e: Effect<P>) -> Seq<Effect<P>> {
    match e {
        Effect::Notify { emitter } => if notify_queued(q, emitter) {
            q
        } else {
            q.push(e)
        },
        _ => q.push(e),
    }
}

} // verus!

verus! {

/// Under `single_notify`, an emitter is notified once if some effect notifies it,
/// and not at all otherwise.
proof fn lemma_notify_count_single<P>(q: Seq<Effect<P>>, m: Emitter)
    requires
        single_notify(q),
    ensures
        notify_count(q, m) == if notify_queued(q, m) { 1nat } else { 0nat },
    decreases q.len(),
{
    if q.len() > 0 {
        let p = q.drop_last();
        assert forall|a: int, b: int, n: Emitter|
            0 <= a < p.len() && 0 <= b < p.len() && #[trigger] notifies(p[a], n) && #[trigger] notifies(
                p[b],
                n,
            ) implies a == b by {
            assert(notifies(q[a], n) && notifies(q[b], n));
        }
        lemma_notify_count_single(p, m);
        if notifies(q.last(), m) {
            assert(notifies(q[q.len() - 1], m));
            if notify_queued(p, m) {
                let k = choose|k: int| 0 <= k < p.len() && #[trigger] notifies(p[k], m);
                assert(notifies(q[k], m));
            }
            assert(notify_queued(q, m));
        } else {
            if notify_queued(p, m) {
                let k = choose|k: int| 0 <= k < p.len() && #[trigger] notifies(p[k], m);
                assert(notifies(q[k], m));
            }
            if notify_queued(q, m) {
                let k = choose|k: int| 0 <= k < q.len() && #[trigger] notifies(q[k], m);
                assert(k != q.len() - 1);
                assert(notifies(p[k], m));
            }
        }
    }
}

/// Queuing a notification of an emitter any number of times before it is applied
/// leaves exactly one notification of it in the queue: a second push changes
/// nothing.
pub proof fn lemma_notify_collapses<P>(q: Seq<Effect<P>>, m: Emitter)
    requires
        single_notify(q),
    ensures
        pushed(pushed(q, Effect::Notify { emitter: m }), Effect::Notify { emitter: m }) == pushed(
            q,
            Effect::Notify { emitter: m },
        ),
        single_notify(pushed(q, Effect::Notify { emitter: m })),
        notify_count(pushed(q, Effect::Notify { emitter: m }), m) == 1,
{
    let n = Effect::<P>::Notify { emitter: m };
    let q1 = pushed(q, n);
    if !notify_queued(q, m) {
        assert(notifies(q1[q1.len() - 1], m));
        assert forall|a: int, b: int, x: Emitter|
            0 <= a < q1.len() && 0 <= b < q1.len() && #[trigger] notifies(q1[a], x)
                && #[trigger] notifies(q1[b], x) implies a == b by {
            if a < q.len() && b < q.len() {
                assert(notifies(q[a], x) && notifies(q[b], x));
            } else if a < q.len() {
                assert(notifies(q[a], x));
            } else if b < q.len() {
                assert(notifies(q[b], x));
            }
        }
    }
    assert(notify_queued(q1, m));
    lemma_notify_count_single(q1, m);
}

} // verus!
