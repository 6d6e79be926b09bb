use vstd::prelude::*;

verus! {

/// The state of one slot of the entity arena.
pub enum Slot<V> {
    /// Allocated and identified, but no value installed yet.
    Reserved,
    /// Holds its value; `strong` handles keep it alive.
    Live { value: V, strong: u64 },
    /// The value is checked out by a lease; `strong` handles still refer to it.
    Leased { strong: u64 },
    /// The strong count reached zero; the value waits for `take_dropped`.
    Dropped { value: V },
    /// Handed out by `take_dropped`; the identifier is never reused.
    Finalized,
}

/// Why an entity could not be reached.
#[derive(PartialEq, Eq, Structural, Clone, Copy, Debug)]
pub enum AccessError {
    /// The entity is already checked out by a lease.
    Reentrant,
    /// The slot holds no value that a strong handle may reach.
    Missing,
    /// The strong count is at its largest value.
    TooManyHandles,
}

/// The first half of a two-phase creation: an identifier without a value.
pub struct Reservation {
    id: usize,
}

/// A handle that keeps its entity alive.
pub struct Handle {
    id: usize,
}

/// A handle that only permits lookup.
#[derive(Clone, Copy)]
pub struct WeakHandle {
    id: usize,
}

impl View for Reservation {
    type V = usize;

    closed spec fn view(&self) -> usize {
        self.id
    }
}

impl View for Handle {
    type V = usize;

    closed spec fn view(&self) -> usize {
        self.id
    }
}

impl View for WeakHandle {
    type V = usize;

    closed spec fn view(&self) -> usize {
        self.id
    }
}

impl Reservation {
    pub fn id(&self) -> (r: usize)
        ensures
            r == self@,
    {
        self.id
    }
}

impl Handle {
    pub fn id(&self) -> (r: usize)
        ensures
            r == self@,
    {
        self.id
    }
}

impl WeakHandle {
    pub fn id(&self) -> (r: usize)
        ensures
            r == self@,
    {
        self.id
    }
}

/// The strong count that a slot records, zero where it records none.
pub open spec fn strong_of<V>(s: Slot<V>) -> u64 {
    match s {
        Slot::Live { strong, .. } => strong,
        Slot::Leased { strong } => strong,
        _ => 0,
    }
}

/// The slot that one more strong handle leaves behind.
pub open spec fn slot_plus_one<V>(s: Slot<V>) -> Slot<V> {
    match s {
        Slot::Live { value, strong } => Slot::Live { value, strong: (strong + 1) as u64 },
        Slot::Leased { strong } => Slot::Leased { strong: (strong + 1) as u64 },
        _ => s,
    }
}


/// What `lease` does: a live entity is checked out and its value handed over; a
/// leased one fails with `Reentrant`, anything else with `Missing`, and a failure
/// changes nothing.
pub open spec fn lease_post<V>(before: EntityStore<V>, after: EntityStore<V>, id: usize, r: Result<V, AccessError>) -> bool {
    let s = before.slots()[id as int];
    &&& after.pending() == before.pending()
    &&& if id < before.slots().len() && s is Live {
        &&& r == Ok::<V, AccessError>(s->Live_value)
        &&& after.slots() == before.slots().update(id as int, Slot::Leased { strong: strong_of(s) })
    } else if id < before.slots().len() && s is Leased {
        &&& r == Err::<V, AccessError>(AccessError::Reentrant)
        &&& after.slots() == before.slots()
    } else {
        &&& r == Err::<V, AccessError>(AccessError::Missing)
        &&& after.slots() == before.slots()
    }
}

/// What `end_lease` does: the value goes back, or, where no strong handle is left,
/// the entity is dropped with it.
pub open spec fn end_lease_post<V>(before: EntityStore<V>, after: EntityStore<V>, id: usize, value: V) -> bool {
    let strong = strong_of(before.slots()[id as int]);
    if strong > 0 {
        &&& after.slots() == before.slots().update(id as int, Slot::Live { value, strong })
        &&& after.pending() == before.pending()
    } else {
        &&& after.slots() == before.slots().update(id as int, Slot::Dropped { value })
        &&& after.pending() == before.pending().push(id)
    }
}

/// What `release` does to the store: one strong handle of `id` fewer.
pub open spec fn release_post<V>(before: EntityStore<V>, after: EntityStore<V>, id: usize) -> bool {
    let s = before.slots()[id as int];
    if id < before.slots().len() && strong_of(s) > 0 {
        match s {
            Slot::Live { value, strong } => if strong > 1 {
                &&& after.slots() == before.slots().update(id as int, Slot::Live { value, strong: (strong - 1) as u64 })
                &&& after.pending() == before.pending()
            } else {
                &&& after.slots() == before.slots().update(id as int, Slot::Dropped { value })
                &&& after.pending() == before.pending().push(id)
            },
            _ => {
                &&& after.slots() == before.slots().update(id as int, Slot::Leased { strong: (strong_of(s) - 1) as u64 })
                &&& after.pending() == before.pending()
            },
        }
    } else {
        &&& after.slots() == before.slots()
        &&& after.pending() == before.pending()
    }
}

/// What `take_dropped` does: the batch lists the pending identifiers in order, each
/// with the value its slot held; those slots become final and nothing stays pending.
pub open spec fn take_dropped_post<V>(before: EntityStore<V>, after: EntityStore<V>, batch: Seq<(usize, V)>) -> bool {
    &&& batch.len() == before.pending().len()
    &&& forall|j: int| 0 <= j < batch.len() ==> (#[trigger] batch[j]).0 == before.pending()[j]
        && before.slots()[batch[j].0 as int] == (Slot::Dropped { value: batch[j].1 })
    &&& after.slots().len() == before.slots().len()
    &&& forall|i: int| 0 <= i < after.slots().len() ==> #[trigger] after.slots()[i] == (
        if before.pending().contains(i as usize) { Slot::Finalized } else { before.slots()[i] })
    &&& after.pending() == Seq::<usize>::empty()
}

/// Changing one slot that is not dropped into another that is not dropped, and
/// live only with a strong handle, keeps the store well formed.
proof fn lemma_set_keeps_wf<V>(before: EntityStore<V>, after: EntityStore<V>, id: usize)
    requires
        before.wf(),
        id < before.slots().len(),
        !(before.slots()[id as int] is Dropped),
        after.slots().len() == before.slots().len(),
        forall|i: int| 0 <= i < before.slots().len() && i != id as int ==> #[trigger] after.slots()[i] == before.slots()[i],
        !(after.slots()[id as int] is Dropped),
        after.slots()[id as int] is Live ==> strong_of(after.slots()[id as int]) >= 1,
        after.pending() == before.pending(),
    ensures
        after.wf(),
{
    assert forall|i: int|
        0 <= i < after.slots().len() && #[trigger] after.slots()[i] is Dropped implies
        after.pending().contains(i as usize) by {
        assert(before.slots()[i] is Dropped);
    }
    assert forall|i: int|
        0 <= i < after.slots().len() && #[trigger] after.slots()[i] is Live implies
        strong_of(after.slots()[i]) >= 1 by {
        if i != id as int {
            assert(before.slots()[i] is Live);
        }
    }
}

/// Dropping one slot that was not dropped, and queueing it, keeps the store well
/// formed.
proof fn lemma_drop_keeps_wf<V>(before: EntityStore<V>, after: EntityStore<V>, id: usize)
    requires
        before.wf(),
        id < before.slots().len(),
        !(before.slots()[id as int] is Dropped),
        after.slots().len() == before.slots().len(),
        forall|i: int| 0 <= i < before.slots().len() && i != id as int ==> #[trigger] after.slots()[i] == before.slots()[i],
        after.slots()[id as int] is Dropped,
        after.pending() == before.pending().push(id),
    ensures
        after.wf(),
{
        assert(!before.pending().contains(id)) by {
        if before.pending().contains(id) {
            let k = choose|k: int| 0 <= k < before.pending().len() && before.pending()[k] == id;
            assert(before.slots()[before.pending()[k] as int] is Dropped);
        }
    }
    assert forall|k: int| 0 <= k < after.pending().len() implies {
        &&& 0 <= #[trigger] after.pending()[k] < after.slots().len()
        &&& after.slots()[after.pending()[k] as int] is Dropped
    } by {
        if k < before.pending().len() {
            assert(before.pending()[k] == after.pending()[k]);
        }
    }
    assert forall|i: int|
        0 <= i < after.slots().len() && #[trigger] after.slots()[i] is Dropped implies
        after.pending().contains(i as usize) by {
        if i == id as int {
            assert(after.pending()[after.pending().len() - 1] == id);
        } else {
            assert(before.slots()[i] is Dropped);
            let k = choose|k: int| 0 <= k < before.pending().len() && before.pending()[k] == i as usize;
            assert(after.pending()[k] == i as usize);
        }
    }
    assert forall|i: int|
        0 <= i < after.slots().len() && #[trigger] after.slots()[i] is Live implies
        strong_of(after.slots()[i]) >= 1 by {
        assert(before.slots()[i] is Live);
    }
}

/// The arena of entities, keyed by identifiers that are never reused.
pub struct EntityStore<V> {
    slots: Vec<Slot<V>>,
    dropped: Vec<usize>,
}

impl<V> EntityStore<V> {
    /// The slots, by identifier.
    pub closed spec fn slots(&self) -> Seq<Slot<V>> {
        self.slots@
    }

    /// The identifiers whose strong count reached zero since the last drain, in that order.
    pub closed spec fn pending(&self) -> Seq<usize> {
        self.dropped@
    }

    pub open spec fn wf(&self) -> bool {
        &&& forall|k: int|
            0 <= k < self.pending().len() ==> {
                &&& 0 <= #[trigger] self.pending()[k] < self.slots().len()
                &&& self.slots()[self.pending()[k] as int] is Dropped
            }
        &&& forall|i: int|
            0 <= i < self.slots().len() && #[trigger] self.slots()[i] is Dropped
                ==> self.pending().contains(i as usize)
        &&& forall|i: int|
            0 <= i < self.slots().len() && #[trigger] self.slots()[i] is Live
                ==> strong_of(self.slots()[i]) >= 1
        &&& self.pending().no_duplicates()
    }

    /// Whether a strong handle with this identifier reaches a value or a lease.
    pub open spec fn is_held(&self, id: usize) -> bool {
        &&& id < self.slots().len()
        &&& (self.slots()[id as int] is Live || self.slots()[id as int] is Leased)
    }

    pub fn new() -> (r: Self)
        ensures
            r.wf(),
            r.slots() == Seq::<Slot<V>>::empty(),
            r.pending() == Seq::<usize>::empty(),
    {
        EntityStore { slots: Vec::new(), dropped: Vec::new() }
    }

    /// The number of slots allocated so far.
    pub fn len(&self) -> (r: usize)
        ensures
            r == self.slots().len(),
    {
        self.slots.len()
    }

    /// The slot of an identifier.
    pub fn slots_at(&self, id: usize) -> (r: Option<&Slot<V>>)
        ensures
            match r {
                Some(s) => id < self.slots().len() && *s == self.slots()[id as int],
                None => id >= self.slots().len(),
            },
    {
        if id < self.slots.len() {
            Some(&self.slots[id])
        } else {
            None
        }
    }

    /// The identifiers waiting for `take_dropped`, in the order they were dropped.
    pub fn pending_ids(&self) -> (r: Vec<usize>)
        ensures
            r@ == self.pending(),
    {
        let mut r: Vec<usize> = Vec::new();
        let mut i: usize = 0;
        while i < self.dropped.len()
            invariant
                0 <= i <= self.dropped@.len(),
                r@ == self.dropped@.subrange(0, i as int),
            decreases self.dropped@.len() - i,
        {
            r.push(self.dropped[i]);
            i = i + 1;
            proof {
                assert(r@ =~= self.dropped@.subrange(0, i as int));
            }
        }
        proof {
            assert(r@ =~= self.dropped@);
        }
        r
    }

    /// Allocates a slot without a value.
    pub fn reserve(&mut self) -> (r: Reservation)
        requires
            old(self).wf(),
            old(self).slots().len() < usize::MAX,
        ensures
            final(self).wf(),
            r@ == old(self).slots().len(),
            final(self).slots() == old(self).slots().push(Slot::Reserved),
            final(self).pending() == old(self).pending(),
    {
        let id = self.slots.len();
        self.slots.push(Slot::Reserved);
        proof {
            assert forall|i: int|
                0 <= i < self.slots().len() && #[trigger] self.slots()[i] is Dropped implies
                self.pending().contains(i as usize) by {
                assert(i < old(self).slots().len());
                assert(old(self).slots()[i] is Dropped);
            }
        }
        Reservation { id }
    }

    /// Whether the reservation still waits for its value.
    pub fn is_reserved(&self, r: &Reservation) -> (b: bool)
        ensures
            b == (r@ < self.slots().len() && self.slots()[r@ as int] is Reserved),
    {
        r.id < self.slots.len() && matches!(self.slots[r.id], Slot::Reserved)
    }

    /// Completes a two-phase creation: installs the value, with one strong handle.
    pub fn insert(&mut self, r: Reservation, value: V) -> (h: Handle)
        requires
            old(self).wf(),
            r@ < old(self).slots().len(),
            old(self).slots()[r@ as int] is Reserved,
        ensures
            final(self).wf(),
            h@ == r@,
            final(self).slots() == old(self).slots().update(r@ as int, Slot::Live { value, strong: 1 }),
            final(self).pending() == old(self).pending(),
    {
        self.slots.set(r.id, Slot::Live { value, strong: 1 });
        proof {
            lemma_set_keeps_wf(*old(self), *self, r.id);
        }
        Handle { id: r.id }
    }

    /// The strong count of the slot, zero where it holds none.
    pub fn strong_count(&self, id: usize) -> (r: u64)
        ensures
            r == (if id < self.slots().len() { strong_of(self.slots()[id as int]) } else { 0 }),
    {
        if id < self.slots.len() {
            match &self.slots[id] {
                Slot::Live { strong, .. } => *strong,
                Slot::Leased { strong } => *strong,
                _ => 0,
            }
        } else {
            0
        }
    }

    /// Checks the value out of the arena. At most one lease is outstanding per
    /// entity: the entity must be live and not already leased, and leasing it
    /// again is a contract violation (`try_lease` reports it instead).
    pub fn lease(&mut self, h: &Handle) -> (r: V)
        requires
            old(self).wf(),
            h@ < old(self).slots().len(),
            old(self).slots()[h@ as int] is Live,
        ensures
            final(self).wf(),
            lease_post(*old(self), *final(self), h@, Ok(r)),
    {
        let id = h.id;
        let mut taken = Slot::Finalized;
        std::mem::swap(&mut self.slots[id], &mut taken);
        match taken {
            Slot::Live { value, strong } => {
                self.slots.set(id, Slot::Leased { strong });
                proof {
                    assert(self.slots() =~= old(self).slots().update(id as int, Slot::Leased { strong }));
                    lemma_set_keeps_wf(*old(self), *self, id);
                }
                value
            },
            _ => vstd::pervasive::unreached(),
        }
    }

    /// Checks the value out where that is allowed. A second lease of a leased
    /// entity fails with `Reentrant`, the same way on every attempt, and any
    /// other entity that is not live with `Missing`; a failure changes nothing.
    pub fn try_lease(&mut self, h: &Handle) -> (r: Result<V, AccessError>)
        requires
            old(self).wf(),
        ensures
            final(self).wf(),
            lease_post(*old(self), *final(self), h@, r),
    {
        let id = h.id;
        if id >= self.slots.len() {
            return Err(AccessError::Missing);
        }
        match &self.slots[id] {
            Slot::Live { .. } => {},
            Slot::Leased { .. } => {
                return Err(AccessError::Reentrant);
            },
            _ => {
                return Err(AccessError::Missing);
            },
        }
        Ok(self.lease(h))
    }

    /// The value of a live entity.
    pub fn get(&self, id: usize) -> (r: Option<&V>)
        ensures
            match r {
                Some(v) => id < self.slots().len() && self.slots()[id as int] == (Slot::Live {
                    value: *v,
                    strong: strong_of(self.slots()[id as int]),
                }),
                None => !(id < self.slots().len() && self.slots()[id as int] is Live),
            },
    {
        if id >= self.slots.len() {
            return None;
        }
        match &self.slots[id] {
            Slot::Live { value, .. } => Some(value),
            _ => None,
        }
    }

    /// Reinstalls a leased value. An entity whose last strong handle went while it
    /// was leased is dropped here.
    pub fn end_lease(&mut self, id: usize, value: V)
        requires
            old(self).wf(),
            id < old(self).slots().len(),
            old(self).slots()[id as int] is Leased,
        ensures
            final(self).wf(),
            end_lease_post(*old(self), *final(self), id, value),
    {
        let strong = self.strong_count(id);
        if strong > 0 {
            self.slots.set(id, Slot::Live { value, strong });
            proof {
                lemma_set_keeps_wf(*old(self), *self, id);
            }
        } else {
            self.slots.set(id, Slot::Dropped { value });
            self.dropped.push(id);
            proof {
                lemma_drop_keeps_wf(*old(self), *self, id);
            }
        }
    }

    /// A weak handle to the same entity.
    pub fn downgrade(&self, h: &Handle) -> (w: WeakHandle)
        ensures
            w@ == h@,
    {
        WeakHandle { id: h.id }
    }

    /// One more strong handle to an entity that a strong handle reaches.
    pub fn clone_handle(&mut self, h: &Handle) -> (r: Result<Handle, AccessError>)
        requires
            old(self).wf(),
        ensures
            final(self).wf(),
            final(self).pending() == old(self).pending(),
            match r {
                Ok(n) => n@ == h@ && final(self).slots() == old(self).slots().update(
                    h@ as int,
                    slot_plus_one(old(self).slots()[h@ as int]),
                ),
                Err(e) => final(self).slots() == old(self).slots() && (e == AccessError::Missing
                    <==> !old(self).is_held(h@)) && (e == AccessError::TooManyHandles
                    <==> (old(self).is_held(h@) && strong_of(old(self).slots()[h@ as int]) == u64::MAX)),
            },
            r is Ok <==> (old(self).is_held(h@) && strong_of(old(self).slots()[h@ as int]) < u64::MAX),
    {
        match self.add_strong(h.id) {
            Ok(()) => Ok(Handle { id: h.id }),
            Err(e) => Err(e),
        }
    }

    /// A strong handle to the entity, while it is alive; `None` once it is dropped.
    pub fn upgrade(&mut self, w: &WeakHandle) -> (r: Option<Handle>)
        requires
            old(self).wf(),
        ensures
            final(self).wf(),
            final(self).pending() == old(self).pending(),
            match r {
                Some(n) => n@ == w@ && final(self).slots() == old(self).slots().update(
                    w@ as int,
                    slot_plus_one(old(self).slots()[w@ as int]),
                ),
                None => final(self).slots() == old(self).slots(),
            },
            r is Some <==> (old(self).is_held(w@) && 0 < strong_of(old(self).slots()[w@ as int]) < u64::MAX),
    {
        if self.strong_count(w.id) == 0 {
            return None;
        }
        match self.add_strong(w.id) {
            Ok(()) => Some(Handle { id: w.id }),
            Err(_) => None,
        }
    }

    fn add_strong(&mut self, id: usize) -> (r: Result<(), AccessError>)
        requires
            old(self).wf(),
        ensures
            final(self).wf(),
            final(self).pending() == old(self).pending(),
            match r {
                Ok(()) => final(self).slots() == old(self).slots().update(
                    id as int,
                    slot_plus_one(old(self).slots()[id as int]),
                ),
                Err(e) => final(self).slots() == old(self).slots() && (e == AccessError::Missing
                    <==> !old(self).is_held(id)) && (e == AccessError::TooManyHandles
                    <==> (old(self).is_held(id) && strong_of(old(self).slots()[id as int]) == u64::MAX)),
            },
            r is Ok <==> (old(self).is_held(id) && strong_of(old(self).slots()[id as int]) < u64::MAX),
    {
        if id >= self.slots.len() {
            return Err(AccessError::Missing);
        }
        let strong = self.strong_count(id);
        let is_live = matches!(self.slots[id], Slot::Live { .. });
        let is_leased = matches!(self.slots[id], Slot::Leased { .. });
        if !is_live && !is_leased {
            return Err(AccessError::Missing);
        }
        if strong == u64::MAX {
            return Err(AccessError::TooManyHandles);
        }
        if is_leased {
            self.slots.set(id, Slot::Leased { strong: strong + 1 });
        } else {
            let mut taken = Slot::Finalized;
            std::mem::swap(&mut self.slots[id], &mut taken);
            match taken {
                Slot::Live { value, strong } => {
                    self.slots.set(id, Slot::Live { value, strong: strong + 1 });
                },
                _ => {
                    proof {
                        assert(false);
                    }
                },
            }
        }
        proof {
            lemma_set_keeps_wf(*old(self), *self, id);
        }
        Ok(())
    }

    /// Gives up one strong handle. At zero the entity is queued for finalization,
    /// or, while leased, when its lease ends.
    pub fn release(&mut self, h: Handle)
        requires
            old(self).wf(),
        ensures
            final(self).wf(),
            release_post(*old(self), *final(self), h@),
    {
        let id = h.id;
        if id >= self.slots.len() {
            return;
        }
        let strong = self.strong_count(id);
        if strong == 0 {
            return;
        }
        if matches!(self.slots[id], Slot::Leased { .. }) {
            self.slots.set(id, Slot::Leased { strong: strong - 1 });
            proof {
                lemma_set_keeps_wf(*old(self), *self, id);
            }
            return;
        }
        let mut taken = Slot::Finalized;
        std::mem::swap(&mut self.slots[id], &mut taken);
        match taken {
            Slot::Live { value, strong } => {
                if strong > 1 {
                    self.slots.set(id, Slot::Live { value, strong: strong - 1 });
                    proof {
                        assert(self.slots() =~= old(self).slots().update(id as int, Slot::Live { value, strong: (strong - 1) as u64 }));
                        lemma_set_keeps_wf(*old(self), *self, id);
                    }
                } else {
                    self.slots.set(id, Slot::Dropped { value });
                    self.dropped.push(id);
                    proof {
                        assert(self.slots() =~= old(self).slots().update(id as int, Slot::Dropped { value }));
                        lemma_drop_keeps_wf(*old(self), *self, id);
                    }
                }
            },
            _ => {
                proof {
                    assert(false);
                }
            },
        }
    }

    /// Drains the entities whose strong count fell to zero since the previous
    /// drain, each with its final value, in the order in which they were dropped.
    pub fn take_dropped(&mut self) -> (batch: Vec<(usize, V)>)
        requires
            old(self).wf(),
        ensures
            final(self).wf(),
            take_dropped_post(*old(self), *final(self), batch@),
    {
        let mut ids: Vec<usize> = Vec::new();
        std::mem::swap(&mut ids, &mut self.dropped);
        let mut batch: Vec<(usize, V)> = Vec::new();
        let mut k: usize = 0;
        let n = self.slots.len();
        while k < ids.len()
            invariant
                self.slots().len() == n,
                ids@ == old(self).pending(),
                self.pending() == Seq::<usize>::empty(),
                old(self).wf(),
                0 <= k <= ids@.len(),
                batch@.len() == k,
                self.slots().len() == old(self).slots().len(),
                forall|j: int| 0 <= j < k ==> (#[trigger] batch@[j]).0 == ids@[j] && old(self).slots()[ids@[j] as int] == (Slot::Dropped { value: batch@[j].1 }),
                forall|i: int| 0 <= i < self.slots().len() ==> #[trigger] self.slots()[i] == (if ids@.subrange(0, k as int).contains(i as usize) { Slot::Finalized } else { old(self).slots()[i] }),
            decreases ids@.len() - k,
        {
            let id = ids[k];
            proof {
                assert(!ids@.subrange(0, k as int).contains(id)) by {
                    if ids@.subrange(0, k as int).contains(id) {
                        let j = choose|j: int| 0 <= j < k && ids@.subrange(0, k as int)[j] == id;
                        assert(ids@[j] == ids@[k as int]);
                    }
                }
                assert(self.slots()[id as int] == old(self).slots()[id as int]);
            }
            let ghost pre = self.slots();
            let mut taken = Slot::Finalized;
            std::mem::swap(&mut self.slots[id], &mut taken);
            match taken {
                Slot::Dropped { value } => {
                    batch.push((id, value));
                },
                _ => {
                    proof {
                        assert(false);
                    }
                },
            }
            k = k + 1;
            proof {
                assert(self.slots() =~= pre.update(id as int, Slot::Finalized));
                let prev = ids@.subrange(0, k - 1);
                let cur = ids@.subrange(0, k as int);
                assert(cur[k - 1] == id);
                assert forall|i: int| 0 <= i < self.slots().len() implies #[trigger] self.slots()[i] == (if ids@.subrange(0, k as int).contains(i as usize) { Slot::Finalized } else { old(self).slots()[i] }) by {
                    if i == id {
                        assert(cur.contains(id));
                    } else {
                        if prev.contains(i as usize) {
                            let j = choose|j: int| 0 <= j < prev.len() && prev[j] == i as usize;
                            assert(cur[j] == i as usize);
                        }
                        if cur.contains(i as usize) {
                            let j = choose|j: int| 0 <= j < cur.len() && cur[j] == i as usize;
                            assert(j != k - 1);
                            assert(prev[j] == i as usize);
                        }
                    }
                }
            }
        }
        proof {
            assert(ids@.subrange(0, k as int) == ids@);
            assert forall|i: int|
                0 <= i < self.slots().len() && #[trigger] self.slots()[i] is Dropped implies
                self.pending().contains(i as usize) by {
                assert(old(self).slots()[i] is Dropped);
                assert(old(self).pending().contains(i as usize));
            }
            assert forall|i: int|
                0 <= i < self.slots().len() && #[trigger] self.slots()[i] is Live implies
                strong_of(self.slots()[i]) >= 1 by {
                assert(old(self).slots()[i] is Live);
            }
        }
        batch
    }
}

} // verus!

verus! {

/// Releasing the last strong handle of a live entity and then draining reports that
/// entity exactly once, with its final value, and leaves its slot finalized.
pub proof fn lemma_last_release_reported_once<V>(
    s0: EntityStore<V>,
    s1: EntityStore<V>,
    s2: EntityStore<V>,
    batch: Seq<(usize, V)>,
    id: usize,
)
    requires
        s0.wf(),
        s1.wf(),
        id < s0.slots().len(),
        s0.slots()[id as int] is Live,
        strong_of(s0.slots()[id as int]) == 1,
        release_post(s0, s1, id),
        take_dropped_post(s1, s2, batch),
    ensures
        exists|j: int| 0 <= j < batch.len() && batch[j].0 == id && s0.slots()[id as int] == (
        Slot::Live { value: batch[j].1, strong: 1 }),
        forall|j1: int, j2: int|
            0 <= j1 < batch.len() && 0 <= j2 < batch.len() && batch[j1].0 == id && batch[j2].0
                == id ==> j1 == j2,
        s2.slots()[id as int] is Finalized,
{
    let j = s1.pending().len() - 1;
    assert(s1.pending()[j] == id);
    assert(batch[j].0 == id);
    assert forall|j1: int, j2: int|
        0 <= j1 < batch.len() && 0 <= j2 < batch.len() && batch[j1].0 == id && batch[j2].0
            == id implies j1 == j2 by {
        assert(s1.pending()[j1] == s1.pending()[j2]);
    }
    assert(s1.pending().contains(id));
}

/// An update, a lease and its end, keeps a live entity live with its strong
/// count, and queues nothing for finalization.
pub proof fn lemma_update_keeps_entity_live<V>(
    s0: EntityStore<V>,
    s1: EntityStore<V>,
    s2: EntityStore<V>,
    r: Result<V, AccessError>,
    id: usize,
    value: V,
)
    requires
        s0.wf(),
        id < s0.slots().len(),
        s0.slots()[id as int] is Live,
        lease_post(s0, s1, id, r),
        end_lease_post(s1, s2, id, value),
    ensures
        r is Ok,
        s2.slots() == s0.slots().update(id as int, Slot::Live { value, strong: strong_of(s0.slots()[id as int]) }),
        s2.pending() == s0.pending(),
{
    assert(s1.slots()[id as int] == (Slot::<V>::Leased { strong: strong_of(s0.slots()[id as int]) }));
    assert(s2.slots() =~= s0.slots().update(id as int, Slot::Live { value, strong: strong_of(s0.slots()[id as int]) }));
}

/// A finalized entity appears in no later drain.
pub proof fn lemma_finalized_never_reported<V>(
    s0: EntityStore<V>,
    s1: EntityStore<V>,
    batch: Seq<(usize, V)>,
    id: usize,
)
    requires
        s0.wf(),
        id < s0.slots().len(),
        s0.slots()[id as int] is Finalized,
        take_dropped_post(s0, s1, batch),
    ensures
        forall|j: int| 0 <= j < batch.len() ==> batch[j].0 != id,
        s1.slots()[id as int] is Finalized,
{
    assert forall|j: int| 0 <= j < batch.len() implies batch[j].0 != id by {
        assert(s0.slots()[s0.pending()[j] as int] is Dropped);
    }
}

} // verus!

verus! {

/// Leasing an entity that is already leased fails with `Reentrant` on every
/// attempt, and each attempt leaves the store as it was.
pub proof fn lemma_lease_of_leased_fails<V>(
    s0: EntityStore<V>,
    s1: EntityStore<V>,
    s2: EntityStore<V>,
    r1: Result<V, AccessError>,
    r2: Result<V, AccessError>,
    id: usize,
)
    requires
        id < s0.slots().len(),
        s0.slots()[id as int] is Leased,
        lease_post(s0, s1, id, r1),
        lease_post(s1, s2, id, r2),
    ensures
        r1 == Err::<V, AccessError>(AccessError::Reentrant),
        r2 == Err::<V, AccessError>(AccessError::Reentrant),
        s1.slots() == s0.slots() && s1.pending() == s0.pending(),
        s2.slots() == s0.slots() && s2.pending() == s0.pending(),
{
}

} // verus!
