use vstd::prelude::*;

verus! {

/// What a subscription is keyed by: an entity or a node of the graph.
#[derive(PartialEq, Eq, Structural, Clone, Copy, Debug)]
pub enum Emitter {
    Entity(usize),
    Node(usize),
}

/// One registration of a subscriber table.
pub struct Registration<T> {
    pub key: Emitter,
    pub value: T,
    /// Set by the deferred activation; until then no dispatch reaches it.
    pub active: bool,
    /// Set when its guard went without `detach`, or its emitter was finalized.
    pub removed: bool,
}

/// Whether a registration receives dispatches for `key`.
pub open spec fn receives<T>(r: Registration<T>, key: Emitter) -> bool {
    r.key == key && r.active && !r.removed
}

/// `ids` lists, in increasing order and once each, exactly the indices at which
/// `mask` holds.
pub open spec fn lists_exactly(ids: Seq<usize>, mask: Seq<bool>) -> bool {
    &&& forall|a: int, b: int| 0 <= a < b < ids.len() ==> ids[a] < ids[b]
    &&& forall|k: int| 0 <= k < ids.len() ==> #[trigger] ids[k] < mask.len() && mask[ids[k] as int]
    &&& forall|i: int| 0 <= i < mask.len() && #[trigger] mask[i] ==> ids.contains(i as usize)
}

/// Which registrations receive dispatches for `key`.
pub open spec fn receiving<T>(regs: Seq<Registration<T>>, key: Emitter) -> Seq<bool> {
    Seq::new(regs.len(), |i: int| receives(regs[i], key))
}

/// Which registrations receive dispatches for `key` and store the event kind `kind`.
pub open spec fn receiving_kind(regs: Seq<Registration<u64>>, key: Emitter, kind: u64) -> Seq<bool> {
    Seq::new(regs.len(), |i: int| receives(regs[i], key) && regs[i].value == kind)
}

/// Which registrations of `key` are still in the table, live or not.
pub open spec fn registered<T>(regs: Seq<Registration<T>>, key: Emitter) -> Seq<bool> {
    Seq::new(regs.len(), |i: int| regs[i].key == key && !regs[i].removed)
}

/// One more step of a scan: `ids` grows by `i` where the mask holds at `i`.
proof fn lemma_scan_step(before: Seq<usize>, after: Seq<usize>, mask: Seq<bool>, i: int)
    requires
        0 <= i < mask.len(),
        lists_exactly(before, mask.subrange(0, i)),
        after == (if mask[i] { before.push(i as usize) } else { before }),
        i < usize::MAX,
    ensures
        lists_exactly(after, mask.subrange(0, i + 1)),
{
    let m0 = mask.subrange(0, i);
    let m1 = mask.subrange(0, i + 1);
    assert forall|k: int| 0 <= k < after.len() implies #[trigger] after[k] < m1.len() && m1[after[k] as int] by {
        if k < before.len() {
            assert(before[k] < m0.len() && m0[before[k] as int]);
        }
    }
    assert forall|j: int| 0 <= j < m1.len() && #[trigger] m1[j] implies after.contains(j as usize) by {
        if j < i {
            assert(m0[j]);
            let k = choose|k: int| 0 <= k < before.len() && before[k] == j as usize;
            assert(after[k] == j as usize);
        } else {
            assert(after[after.len() - 1] == j as usize);
        }
    }
    assert forall|a: int, b: int| 0 <= a < b < after.len() implies after[a] < after[b] by {
        if b == before.len() {
            assert(before[a] < m0.len());
        }
    }
}

/// A keyed table of subscribers. Registration identifiers are indices and are
/// never reused.
pub struct Registry<T> {
    regs: Vec<Registration<T>>,
}

impl<T> Registry<T> {
    /// The registrations, by identifier.
    pub closed spec fn entries(&self) -> Seq<Registration<T>> {
        self.regs@
    }

    pub fn new() -> (r: Self)
        ensures
            r.entries() == Seq::<Registration<T>>::empty(),
    {
        Registry { regs: Vec::new() }
    }

    pub fn len(&self) -> (r: usize)
        ensures
            r == self.entries().len(),
    {
        self.regs.len()
    }

    /// Adds an inactive registration and returns its identifier.
    pub fn insert(&mut self, key: Emitter, value: T) -> (id: usize)
        requires
            old(self).entries().len() < usize::MAX,
        ensures
            id == old(self).entries().len(),
            final(self).entries() == old(self).entries().push(
                Registration { key, value, active: false, removed: false },
            ),
    {
        let id = self.regs.len();
        self.regs.push(Registration { key, value, active: false, removed: false });
        id
    }

    /// Makes a registration live.
    pub fn activate(&mut self, id: usize)
        ensures
            final(self).entries() == if id < old(self).entries().len() {
                old(self).entries().update(
                    id as int,
                    Registration { active: true, ..old(self).entries()[id as int] },
                )
            } else {
                old(self).entries()
            },
    {
        if id < self.regs.len() {
            self.regs[id].active = true;
        }
    }

    /// Takes one registration out of the table.
    pub fn unregister(&mut self, id: usize)
        ensures
            final(self).entries() == if id < old(self).entries().len() {
                old(self).entries().update(
                    id as int,
                    Registration { removed: true, ..old(self).entries()[id as int] },
                )
            } else {
                old(self).entries()
            },
    {
        if id < self.regs.len() {
            self.regs[id].removed = true;
        }
    }

    /// Whether a registration is still in the table.
    pub fn is_registered(&self, id: usize) -> (b: bool)
        ensures
            b == (id < self.entries().len() && !self.entries()[id as int].removed),
    {
        id < self.regs.len() && !self.regs[id].removed
    }

    /// Whether a registration is live.
    pub fn is_active(&self, id: usize) -> (b: bool)
        ensures
            b == (id < self.entries().len() && self.entries()[id as int].active
                && !self.entries()[id as int].removed),
    {
        id < self.regs.len() && self.regs[id].active && !self.regs[id].removed
    }

    /// The registrations that receive dispatches for `key`, in registration order.
    pub fn receivers(&self, key: Emitter) -> (ids: Vec<usize>)
        ensures
            lists_exactly(ids@, receiving(self.entries(), key)),
    {
        let ghost mask = receiving(self.entries(), key);
        let mut ids: Vec<usize> = Vec::new();
        let mut i: usize = 0;
        while i < self.regs.len()
            invariant
                0 <= i <= self.regs@.len(),
                mask == receiving(self.entries(), key),
                lists_exactly(ids@, mask.subrange(0, i as int)),
            decreases self.regs@.len() - i,
        {
            let ghost before = ids@;
            let r = &self.regs[i];
            if r.key == key && r.active && !r.removed {
                ids.push(i);
            }
            proof {
                lemma_scan_step(before, ids@, mask, i as int);
            }
            i = i + 1;
        }
        proof {
            assert(mask.subrange(0, i as int) == mask);
        }
        ids
    }

    /// Removes every registration of `key`, live or not, and returns the
    /// identifiers of those that were still in the table, in registration order.
    pub fn remove_key(&mut self, key: Emitter) -> (ids: Vec<usize>)
        ensures
            lists_exactly(ids@, registered(old(self).entries(), key)),
            final(self).entries().len() == old(self).entries().len(),
            forall|i: int|
                0 <= i < old(self).entries().len() ==> #[trigger] final(self).entries()[i] == if old(
                    self,
                ).entries()[i].key == key {
                    Registration { removed: true, ..old(self).entries()[i] }
                } else {
                    old(self).entries()[i]
                },
    {
        let ghost mask = registered(old(self).entries(), key);
        let mut ids: Vec<usize> = Vec::new();
        let mut i: usize = 0;
        while i < self.regs.len()
            invariant
                0 <= i <= self.regs@.len(),
                self.entries().len() == old(self).entries().len(),
                mask == registered(old(self).entries(), key),
                lists_exactly(ids@, mask.subrange(0, i as int)),
                forall|j: int|
                    0 <= j < old(self).entries().len() ==> #[trigger] self.entries()[j] == if j < i
                        && old(self).entries()[j].key == key {
                        Registration { removed: true, ..old(self).entries()[j] }
                    } else {
                        old(self).entries()[j]
                    },
            decreases self.regs@.len() - i,
        {
            let ghost before = ids@;
            if self.regs[i].key == key {
                if !self.regs[i].removed {
                    ids.push(i);
                }
                self.regs[i].removed = true;
            }
            proof {
                lemma_scan_step(before, ids@, mask, i as int);
            }
            i = i + 1;
        }
        proof {
            assert(mask.subrange(0, i as int) == mask);
        }
        ids
    }
}

impl Registry<u64> {
    /// The registrations for `key` that receive dispatches and whose stored event
    /// kind is `kind`, in registration order.
    pub fn receivers_of_kind(&self, key: Emitter, kind: u64) -> (ids: Vec<usize>)
        ensures
            lists_exactly(ids@, receiving_kind(self.entries(), key, kind)),
    {
        let ghost mask = receiving_kind(self.entries(), key, kind);
        let mut ids: Vec<usize> = Vec::new();
        let mut i: usize = 0;
        while i < self.regs.len()
            invariant
                0 <= i <= self.regs@.len(),
                mask == receiving_kind(self.entries(), key, kind),
                lists_exactly(ids@, mask.subrange(0, i as int)),
            decreases self.regs@.len() - i,
        {
            let ghost before = ids@;
            let r = &self.regs[i];
            if r.key == key && r.active && !r.removed && r.value == kind {
                ids.push(i);
            }
            proof {
                lemma_scan_step(before, ids@, mask, i as int);
            }
            i = i + 1;
        }
        proof {
            assert(mask.subrange(0, i as int) == mask);
        }
        ids
    }
}

} // verus!

verus! {

/// Whether `k` is the key of one of the entities `gone`.
pub open spec fn gone_key(k: Emitter, gone: Seq<usize>) -> bool {
    match k {
        Emitter::Entity(x) => gone.contains(x),
        Emitter::Node(_) => false,
    }
}

/// The table once every registration of the entities `gone` is removed.
pub open spec fn strip<T>(regs: Seq<Registration<T>>, gone: Seq<usize>) -> Seq<Registration<T>> {
    Seq::new(
        regs.len(),
        |i: int|
            if gone_key(regs[i].key, gone) {
                Registration { removed: true, ..regs[i] }
            } else {
                regs[i]
            },
    )
}

/// The table once registration `id` is live.
pub open spec fn activated<T>(regs: Seq<Registration<T>>, id: usize) -> Seq<Registration<T>> {
    if id < regs.len() {
        regs.update(id as int, Registration { active: true, ..regs[id as int] })
    } else {
        regs
    }
}

/// The table once registration `id` is taken out.
pub open spec fn unregistered<T>(regs: Seq<Registration<T>>, id: usize) -> Seq<Registration<T>> {
    if id < regs.len() {
        regs.update(id as int, Registration { removed: true, ..regs[id as int] })
    } else {
        regs
    }
}

/// Removing the registrations of one more entity.
pub(crate) proof fn lemma_strip_push<T>(regs: Seq<Registration<T>>, gone: Seq<usize>, id: usize, after: Seq<Registration<T>>)
    requires
        after.len() == regs.len(),
        forall|i: int|
            0 <= i < regs.len() ==> #[trigger] after[i] == if strip(regs, gone)[i].key == Emitter::Entity(id) {
                Registration { removed: true, ..strip(regs, gone)[i] }
            } else {
                strip(regs, gone)[i]
            },
    ensures
        after == strip(regs, gone.push(id)),
{
    let g1 = gone.push(id);
    assert forall|i: int| 0 <= i < regs.len() implies #[trigger] after[i] == strip(regs, g1)[i] by {
        match regs[i].key {
            Emitter::Entity(x) => {
                if gone.contains(x) {
                    let k = choose|k: int| 0 <= k < gone.len() && gone[k] == x;
                    assert(g1[k] == x);
                }
                if g1.contains(x) && x != id {
                    let k = choose|k: int| 0 <= k < g1.len() && g1[k] == x;
                    assert(k != gone.len());
                    assert(gone[k] == x);
                }
                if x == id {
                    assert(g1[gone.len() as int] == x);
                }
            },
            Emitter::Node(_) => {},
        }
    }
    assert(after =~= strip(regs, g1));
}

/// Removing other entities' registrations leaves those of `id` as they were.
pub(crate) proof fn lemma_strip_keeps_others<T>(regs: Seq<Registration<T>>, gone: Seq<usize>, id: usize)
    requires
        !gone.contains(id),
    ensures
        registered(strip(regs, gone), Emitter::Entity(id)) == registered(regs, Emitter::Entity(id)),
{
    assert(registered(strip(regs, gone), Emitter::Entity(id)) =~= registered(regs, Emitter::Entity(id)));
}

} // verus!

verus! {

/// Destroying a guard without `detach` takes its registration out for good: it
/// receives nothing for any emitter, and every other registration is as it was.
pub proof fn lemma_unregistered_receives_nothing<T>(regs: Seq<Registration<T>>, id: usize, key: Emitter)
    requires
        id < regs.len(),
    ensures
        !receives(unregistered(regs, id)[id as int], key),
        unregistered(regs, id)[id as int].removed,
        forall|i: int| 0 <= i < regs.len() && i != id ==> #[trigger] unregistered(regs, id)[i] == regs[i],
        !registered(unregistered(regs, id), key)[id as int],
{
}

} // verus!

verus! {

/// Whether some answer `keep[k]` for registration `ids[k] == i` is false.
pub open spec fn refused(ids: Seq<usize>, keep: Seq<bool>, i: int) -> bool {
    exists|k: int| 0 <= k < ids.len() && k < keep.len() && ids[k] == i && !keep[k]
}

/// The table once every registration whose callback answered false is taken out.
pub open spec fn answered<T>(regs: Seq<Registration<T>>, ids: Seq<usize>, keep: Seq<bool>) -> Seq<Registration<T>> {
    Seq::new(
        regs.len(),
        |i: int|
            if refused(ids, keep, i) {
                Registration { removed: true, ..regs[i] }
            } else {
                regs[i]
            },
    )
}

impl<T> Registry<T> {
    /// Takes in the answers of dispatched callbacks: registration `ids[k]` stays
    /// exactly when `keep[k]` holds; no other registration changes.
    pub fn retain_answered(&mut self, ids: &Vec<usize>, keep: &Vec<bool>)
        requires
            ids@.len() == keep@.len(),
        ensures
            final(self).entries() == answered(old(self).entries(), ids@, keep@),
    {
        let mut k: usize = 0;
        while k < ids.len()
            invariant
                ids@.len() == keep@.len(),
                0 <= k <= ids@.len(),
                self.entries() == answered(old(self).entries(), ids@.subrange(0, k as int), keep@.subrange(0, k as int)),
            decreases ids@.len() - k,
        {
            let ghost before = self.entries();
            if !keep[k] {
                self.unregister(ids[k]);
            }
            proof {
                let i0 = ids@.subrange(0, k as int);
                let k0 = keep@.subrange(0, k as int);
                let i1 = ids@.subrange(0, k + 1);
                let k1 = keep@.subrange(0, k + 1);
                let regs = old(self).entries();
                assert(before == answered(regs, i0, k0));
                assert forall|i: int| 0 <= i < regs.len() implies #[trigger] self.entries()[i] == answered(regs, i1, k1)[i] by {
                    if i == ids@[k as int] && !keep@[k as int] {
                        assert(i1[k as int] == i && !k1[k as int]);
                    }
                    if refused(i0, k0, i) {
                        let j = choose|j: int| 0 <= j < i0.len() && j < k0.len() && i0[j] == i && !k0[j];
                        assert(i1[j] == i && !k1[j]);
                    }
                    if refused(i1, k1, i) {
                        let j = choose|j: int| 0 <= j < i1.len() && j < k1.len() && i1[j] == i && !k1[j];
                        if j < k {
                            assert(i0[j] == i && !k0[j]);
                        }
                    }
                }
                assert(self.entries() =~= answered(regs, i1, k1));
            }
            k = k + 1;
        }
        proof {
            assert(ids@.subrange(0, k as int) =~= ids@);
            assert(keep@.subrange(0, k as int) =~= keep@);
        }
    }
}

} // verus!
