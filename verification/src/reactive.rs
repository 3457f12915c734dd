//! Reference-counted observable value cells.
//!
//! A [`ReactiveStore`] is an arena of cells; a [`Reactive`] is a handle to
//! one cell in it. Handles are affine values: they cannot be copied, only
//! duplicated through [`Reactive::clone_handle`] (which raises the cell's
//! reference count) and retired through [`Reactive::release`] (which lowers
//! it, and frees the cell when the count reaches zero). Slots of freed
//! cells are never reused.
//!
//! Change notification is push-based and synchronous in registration
//! order: `set`, `replace` and `mutate` append one [`Delivery`] record per
//! currently-registered subscriber, carrying the new value, to the store's
//! delivery log before they return. A driver drains the log with
//! [`ReactiveStore::take_deliveries`] and dispatches each record. Delete
//! listeners work the same way through the separate delete log, written
//! exactly once, by the release that frees the cell.

use vstd::prelude::*;

verus! {

broadcast use vstd::seq_lib::group_seq_lib_default;

/// Identity of one subscription, unique per store and never reused.
pub type ReactiveSubscriptionId = usize;

/// One notification record: `subscriber` was handed `value`.
pub struct Delivery<T> {
    pub subscriber: ReactiveSubscriptionId,
    pub value: T,
}

struct CellState<T> {
    value: T,
    ref_count: usize,
    subs: Vec<ReactiveSubscriptionId>,
    delete_subs: Vec<ReactiveSubscriptionId>,
}

/// Arena of observable cells. All operations on a [`Reactive`] handle take
/// the store the handle was created in.
pub struct ReactiveStore<T> {
    slots: Vec<Option<CellState<T>>>,
    next_sub_id: usize,
    log: Vec<Delivery<T>>,
    delete_log: Vec<Delivery<T>>,
}

/// Handle to one cell of a [`ReactiveStore`].
pub struct Reactive<T> {
    slot: usize,
    marker: core::marker::PhantomData<T>,
}

/// Mathematical state of one live cell.
pub ghost struct CellModel<T> {
    pub value: T,
    pub ref_count: nat,
    pub subs: Seq<ReactiveSubscriptionId>,
    pub delete_subs: Seq<ReactiveSubscriptionId>,
}

/// Mathematical state of a store: the live cells by slot id, the
/// subscription-id counter, and the two notification logs.
pub ghost struct StoreModel<T> {
    pub cells: Map<nat, CellModel<T>>,
    pub sub_ctr: nat,
    pub log: Seq<(ReactiveSubscriptionId, T)>,
    pub delete_log: Seq<(ReactiveSubscriptionId, T)>,
}

impl<T> StoreModel<T> {
    /// Store invariant: subscription ids are unique within each list and
    /// below the counter, and live cells are referenced at least once.
    pub open spec fn inv(self) -> bool {
        forall|k: nat| #[trigger] self.cells.contains_key(k) ==> {
            let c = self.cells[k];
            &&& c.ref_count >= 1
            &&& (forall|i: int| 0 <= i < c.subs.len() ==> #[trigger] c.subs[i] < self.sub_ctr)
            &&& (forall|i: int| 0 <= i < c.delete_subs.len() ==> #[trigger] c.delete_subs[i]
                < self.sub_ctr)
            &&& (forall|i: int, j: int| 0 <= i < j < c.subs.len() ==> c.subs[i] != c.subs[j])
            &&& (forall|i: int, j: int|
                0 <= i < j < c.delete_subs.len() ==> c.delete_subs[i] != c.delete_subs[j])
        }
    }
}

/// The change log of `post` extends the one of `pre` with one record per
/// subscriber in `subs`, in order, each carrying a clone of `value`.
pub open spec fn notified<T: Clone>(
    pre: Seq<(ReactiveSubscriptionId, T)>,
    post: Seq<(ReactiveSubscriptionId, T)>,
    subs: Seq<ReactiveSubscriptionId>,
    value: T,
) -> bool {
    &&& post.len() == pre.len() + subs.len()
    &&& post.subrange(0, pre.len() as int) == pre
    &&& (forall|i: int| 0 <= i < subs.len() ==> (#[trigger] post[pre.len() + i]).0 == subs[i])
    &&& (forall|i: int| 0 <= i < subs.len() ==> cloned(value, (#[trigger] post[pre.len() + i]).1))
}

/// Filtering keeps a duplicate-free, bounded id list duplicate-free and
/// bounded, and introduces no new ids.
pub(crate) proof fn lemma_filter_keeps_no_dup(
    s: Seq<ReactiveSubscriptionId>,
    pred: spec_fn(ReactiveSubscriptionId) -> bool,
    bound: nat,
)
    requires
        forall|i: int, j: int| 0 <= i < j < s.len() ==> s[i] != s[j],
        forall|i: int| 0 <= i < s.len() ==> #[trigger] s[i] < bound,
    ensures
        forall|i: int, j: int|
            0 <= i < j < s.filter(pred).len() ==> s.filter(pred)[i] != s.filter(pred)[j],
        forall|i: int| 0 <= i < s.filter(pred).len() ==> #[trigger] s.filter(pred)[i] < bound,
    decreases s.len(),
{
    reveal(Seq::filter);
    if s.len() > 0 {
        let dl = s.drop_last();
        lemma_filter_keeps_no_dup(dl, pred, bound);
        let f = s.filter(pred);
        let fd = dl.filter(pred);
        if pred(s.last()) {
            assert(f == fd.push(s.last()));
            assert forall|i: int| 0 <= i < fd.len() implies fd[i] != s.last() by {
                let x = fd[i];
                assert(fd.contains(x));
                dl.lemma_filter_contains_rev(pred, x);
                let w = choose|w: int| 0 <= w < dl.len() && dl[w] == x;
                assert(s[w] == x);
                assert(s[s.len() - 1] == s.last());
            }
        }
    }
}

spec fn cell_model<T>(c: CellState<T>) -> CellModel<T> {
    CellModel {
        value: c.value,
        ref_count: c.ref_count as nat,
        subs: c.subs@,
        delete_subs: c.delete_subs@,
    }
}

impl<T> View for ReactiveStore<T> {
    type V = StoreModel<T>;

    closed spec fn view(&self) -> StoreModel<T> {
        StoreModel {
            cells: Map::new(
                |k: nat| k < self.slots@.len() && self.slots@[k as int] is Some,
                |k: nat| cell_model(self.slots@[k as int].unwrap()),
            ),
            sub_ctr: self.next_sub_id as nat,
            log: self.log@.map_values(|d: Delivery<T>| (d.subscriber, d.value)),
            delete_log: self.delete_log@.map_values(|d: Delivery<T>| (d.subscriber, d.value)),
        }
    }
}

impl<T> ReactiveStore<T> {
    /// Well-formedness carried by every store the library hands out.
    pub open spec fn wf(&self) -> bool {
        self@.inv()
    }

    /// Slot ids are bounded by the slot count; used to show freshness.
    spec fn slots_wf(&self) -> bool {
        forall|k: nat| #[trigger] self@.cells.contains_key(k) ==> k < self.slots@.len()
    }

    proof fn lemma_slots_wf(&self)
        ensures
            self.slots_wf(),
    {
    }

    pub fn new() -> (s: Self)
        ensures
            s.wf(),
            s@.cells == Map::<nat, CellModel<T>>::empty(),
            s@.sub_ctr == 0,
            s@.log == Seq::<(ReactiveSubscriptionId, T)>::empty(),
            s@.delete_log == Seq::<(ReactiveSubscriptionId, T)>::empty(),
    {
        let s = ReactiveStore {
            slots: Vec::new(),
            next_sub_id: 0,
            log: Vec::new(),
            delete_log: Vec::new(),
        };
        proof {
            assert(s@.cells =~= Map::<nat, CellModel<T>>::empty());
            assert(s@.log =~= Seq::<(ReactiveSubscriptionId, T)>::empty());
            assert(s@.delete_log =~= Seq::<(ReactiveSubscriptionId, T)>::empty());
        }
        s
    }

    /// Drains the change log: the caller dispatches the records.
    pub fn take_deliveries(&mut self) -> (r: Vec<Delivery<T>>)
        requires
            old(self).wf(),
        ensures
            final(self).wf(),
            r@.map_values(|d: Delivery<T>| (d.subscriber, d.value)) == old(self)@.log,
            final(self)@.log == Seq::<(ReactiveSubscriptionId, T)>::empty(),
            final(self)@.cells == old(self)@.cells,
            final(self)@.sub_ctr == old(self)@.sub_ctr,
            final(self)@.delete_log == old(self)@.delete_log,
    {
        let mut out: Vec<Delivery<T>> = Vec::new();
        core::mem::swap(&mut out, &mut self.log);
        proof {
            assert(self@.log =~= Seq::<(ReactiveSubscriptionId, T)>::empty());
            assert(self@.cells =~= old(self)@.cells);
        }
        out
    }

    /// Drains the delete log: the caller dispatches the records.
    pub fn take_delete_deliveries(&mut self) -> (r: Vec<Delivery<T>>)
        requires
            old(self).wf(),
        ensures
            final(self).wf(),
            r@.map_values(|d: Delivery<T>| (d.subscriber, d.value)) == old(self)@.delete_log,
            final(self)@.delete_log == Seq::<(ReactiveSubscriptionId, T)>::empty(),
            final(self)@.cells == old(self)@.cells,
            final(self)@.sub_ctr == old(self)@.sub_ctr,
            final(self)@.log == old(self)@.log,
    {
        let mut out: Vec<Delivery<T>> = Vec::new();
        core::mem::swap(&mut out, &mut self.delete_log);
        proof {
            assert(self@.delete_log =~= Seq::<(ReactiveSubscriptionId, T)>::empty());
            assert(self@.cells =~= old(self)@.cells);
        }
        out
    }
}

impl<T> Reactive<T> {
    /// The slot this handle points at; handles to the same cell agree on it.
    pub closed spec fn id(self) -> nat {
        self.slot as nat
    }

    /// Whether this handle points at a live cell of `store`.
    pub open spec fn live(self, store: &ReactiveStore<T>) -> bool {
        store@.cells.contains_key(self.id())
    }

    /// Creates a cell holding `value`, with reference count one and no
    /// subscribers, in a slot never used before.
    pub fn new(store: &mut ReactiveStore<T>, value: T) -> (r: Reactive<T>)
        requires
            old(store).wf(),
        ensures
            final(store).wf(),
            !old(store)@.cells.contains_key(r.id()),
            final(store)@.cells == old(store)@.cells.insert(
                r.id(),
                CellModel {
                    value,
                    ref_count: 1,
                    subs: Seq::<ReactiveSubscriptionId>::empty(),
                    delete_subs: Seq::<ReactiveSubscriptionId>::empty(),
                },
            ),
            final(store)@.sub_ctr == old(store)@.sub_ctr,
            final(store)@.log == old(store)@.log,
            final(store)@.delete_log == old(store)@.delete_log,
    {
        proof {
            store.lemma_slots_wf();
        }
        let slot = store.slots.len();
        store.slots.push(
            Some(
                CellState { value, ref_count: 1, subs: Vec::new(), delete_subs: Vec::new() },
            ),
        );
        let r = Reactive { slot, marker: core::marker::PhantomData };
        proof {
            assert(store@.cells =~= old(store)@.cells.insert(
                r.id(),
                CellModel {
                    value,
                    ref_count: 1,
                    subs: Seq::<ReactiveSubscriptionId>::empty(),
                    delete_subs: Seq::<ReactiveSubscriptionId>::empty(),
                },
            ));
            assert(store@.log =~= old(store)@.log);
            assert(store@.delete_log =~= old(store)@.delete_log);
        }
        r
    }

    /// Borrows the current value without copying it.
    pub fn get<'a>(&self, store: &'a ReactiveStore<T>) -> (t: &'a T)
        requires
            store.wf(),
            self.live(store),
        ensures
            *t == store@.cells[self.id()].value,
    {
        match &store.slots[self.slot] {
            Some(cell) => &cell.value,
            None => unreached(),
        }
    }

    /// Duplicates this handle; the cell's reference count grows by one.
    pub fn clone_handle(&self, store: &mut ReactiveStore<T>) -> (r: Reactive<T>)
        requires
            old(store).wf(),
            self.live(&*old(store)),
            old(store)@.cells[self.id()].ref_count < usize::MAX,
        ensures
            final(store).wf(),
            r.id() == self.id(),
            final(store)@.cells == old(store)@.cells.insert(
                self.id(),
                CellModel {
                    ref_count: old(store)@.cells[self.id()].ref_count + 1,
                    ..old(store)@.cells[self.id()]
                },
            ),
            final(store)@.sub_ctr == old(store)@.sub_ctr,
            final(store)@.log == old(store)@.log,
            final(store)@.delete_log == old(store)@.delete_log,
    {
        let slot_ref = &mut store.slots[self.slot];
        match slot_ref {
            Some(cell) => {
                cell.ref_count = cell.ref_count + 1;
            },
            None => {
                proof {
                    assert(false);
                }
            },
        }
        proof {
            assert(store@.cells =~= old(store)@.cells.insert(
                self.id(),
                CellModel {
                    ref_count: old(store)@.cells[self.id()].ref_count + 1,
                    ..old(store)@.cells[self.id()]
                },
            ));
            assert(store@.log =~= old(store)@.log);
            assert(store@.delete_log =~= old(store)@.delete_log);
        }
        Reactive { slot: self.slot, marker: core::marker::PhantomData }
    }

    /// Registers a change subscriber; the returned id is fresh: it occurs in
    /// no subscriber list of the store.
    pub fn subscribe(&self, store: &mut ReactiveStore<T>) -> (id: ReactiveSubscriptionId)
        requires
            old(store).wf(),
            self.live(&*old(store)),
            old(store)@.sub_ctr < usize::MAX,
        ensures
            final(store).wf(),
            id == old(store)@.sub_ctr,
            final(store)@.sub_ctr == old(store)@.sub_ctr + 1,
            forall|k: nat| #[trigger] old(store)@.cells.contains_key(k) ==> {
                &&& !old(store)@.cells[k].subs.contains(id)
                &&& !old(store)@.cells[k].delete_subs.contains(id)
            },
            final(store)@.cells == old(store)@.cells.insert(
                self.id(),
                CellModel {
                    subs: old(store)@.cells[self.id()].subs.push(id),
                    ..old(store)@.cells[self.id()]
                },
            ),
            final(store)@.log == old(store)@.log,
            final(store)@.delete_log == old(store)@.delete_log,
    {
        let id = store.next_sub_id;
        store.next_sub_id = store.next_sub_id + 1;
        let slot_ref = &mut store.slots[self.slot];
        match slot_ref {
            Some(cell) => {
                cell.subs.push(id);
            },
            None => {
                proof {
                    assert(false);
                }
            },
        }
        proof {
            assert(store@.cells =~= old(store)@.cells.insert(
                self.id(),
                CellModel {
                    subs: old(store)@.cells[self.id()].subs.push(id),
                    ..old(store)@.cells[self.id()]
                },
            ));
            assert(store@.log =~= old(store)@.log);
            assert(store@.delete_log =~= old(store)@.delete_log);
        }
        id
    }

    /// Registers a delete listener, fired when the cell is freed.
    pub fn subscribe_delete(&self, store: &mut ReactiveStore<T>) -> (id: ReactiveSubscriptionId)
        requires
            old(store).wf(),
            self.live(&*old(store)),
            old(store)@.sub_ctr < usize::MAX,
        ensures
            final(store).wf(),
            id == old(store)@.sub_ctr,
            final(store)@.sub_ctr == old(store)@.sub_ctr + 1,
            forall|k: nat| #[trigger] old(store)@.cells.contains_key(k) ==> {
                &&& !old(store)@.cells[k].subs.contains(id)
                &&& !old(store)@.cells[k].delete_subs.contains(id)
            },
            final(store)@.cells == old(store)@.cells.insert(
                self.id(),
                CellModel {
                    delete_subs: old(store)@.cells[self.id()].delete_subs.push(id),
                    ..old(store)@.cells[self.id()]
                },
            ),
            final(store)@.log == old(store)@.log,
            final(store)@.delete_log == old(store)@.delete_log,
    {
        let id = store.next_sub_id;
        store.next_sub_id = store.next_sub_id + 1;
        let slot_ref = &mut store.slots[self.slot];
        match slot_ref {
            Some(cell) => {
                cell.delete_subs.push(id);
            },
            None => {
                proof {
                    assert(false);
                }
            },
        }
        proof {
            assert(store@.cells =~= old(store)@.cells.insert(
                self.id(),
                CellModel {
                    delete_subs: old(store)@.cells[self.id()].delete_subs.push(id),
                    ..old(store)@.cells[self.id()]
                },
            ));
            assert(store@.log =~= old(store)@.log);
            assert(store@.delete_log =~= old(store)@.delete_log);
        }
        id
    }

    /// Removes the change subscription `id`; an unknown id is a no-op.
    #[verifier::loop_isolation(false)]
    pub fn unsubscribe(&self, store: &mut ReactiveStore<T>, id: ReactiveSubscriptionId)
        requires
            old(store).wf(),
            self.live(&*old(store)),
        ensures
            final(store).wf(),
            final(store)@.cells == old(store)@.cells.insert(
                self.id(),
                CellModel {
                    subs: old(store)@.cells[self.id()].subs.filter(
                        |s: ReactiveSubscriptionId| s != id,
                    ),
                    ..old(store)@.cells[self.id()]
                },
            ),
            final(store)@.sub_ctr == old(store)@.sub_ctr,
            final(store)@.log == old(store)@.log,
            final(store)@.delete_log == old(store)@.delete_log,
    {
        let slot_ref = &mut store.slots[self.slot];
        match slot_ref {
            Some(cell) => {
                let mut kept: Vec<ReactiveSubscriptionId> = Vec::new();
                let n = cell.subs.len();
                for i in 0..n
                    invariant
                        n == cell.subs@.len(),
                        kept@ == cell.subs@.subrange(0, i as int).filter(
                            |s: ReactiveSubscriptionId| s != id,
                        ),
                {
                    proof {
                        assert(cell.subs@.subrange(0, i + 1int).drop_last() =~= cell.subs@.subrange(
                            0,
                            i as int,
                        ));
                        reveal_with_fuel(Seq::filter, 2);
                    }
                    if cell.subs[i] != id {
                        kept.push(cell.subs[i]);
                    }
                }
                proof {
                    assert(cell.subs@.subrange(0, n as int) =~= cell.subs@);
                }
                cell.subs = kept;
            },
            None => {
                proof {
                    assert(false);
                }
            },
        }
        proof {
            let subs0 = old(store)@.cells[self.id()].subs;
            let pred = |s: ReactiveSubscriptionId| s != id;
            assert(old(store)@.cells.contains_key(self.id()));
            lemma_filter_keeps_no_dup(subs0, pred, old(store)@.sub_ctr);
            assert(store@.cells =~= old(store)@.cells.insert(
                self.id(),
                CellModel { subs: subs0.filter(pred), ..old(store)@.cells[self.id()] },
            ));
            assert(store@.log =~= old(store)@.log);
            assert(store@.delete_log =~= old(store)@.delete_log);
        }
    }

    /// Removes the delete subscription `id`; an unknown id is a no-op.
    #[verifier::loop_isolation(false)]
    pub fn unsubscribe_delete(&self, store: &mut ReactiveStore<T>, id: ReactiveSubscriptionId)
        requires
            old(store).wf(),
            self.live(&*old(store)),
        ensures
            final(store).wf(),
            final(store)@.cells == old(store)@.cells.insert(
                self.id(),
                CellModel {
                    delete_subs: old(store)@.cells[self.id()].delete_subs.filter(
                        |s: ReactiveSubscriptionId| s != id,
                    ),
                    ..old(store)@.cells[self.id()]
                },
            ),
            final(store)@.sub_ctr == old(store)@.sub_ctr,
            final(store)@.log == old(store)@.log,
            final(store)@.delete_log == old(store)@.delete_log,
    {
        let slot_ref = &mut store.slots[self.slot];
        match slot_ref {
            Some(cell) => {
                let mut kept: Vec<ReactiveSubscriptionId> = Vec::new();
                let n = cell.delete_subs.len();
                for i in 0..n
                    invariant
                        n == cell.delete_subs@.len(),
                        kept@ == cell.delete_subs@.subrange(0, i as int).filter(
                            |s: ReactiveSubscriptionId| s != id,
                        ),
                {
                    proof {
                        assert(cell.delete_subs@.subrange(0, i + 1int).drop_last()
                            =~= cell.delete_subs@.subrange(0, i as int));
                        reveal_with_fuel(Seq::filter, 2);
                    }
                    if cell.delete_subs[i] != id {
                        kept.push(cell.delete_subs[i]);
                    }
                }
                proof {
                    assert(cell.delete_subs@.subrange(0, n as int) =~= cell.delete_subs@);
                }
                cell.delete_subs = kept;
            },
            None => {
                proof {
                    assert(false);
                }
            },
        }
        proof {
            let subs0 = old(store)@.cells[self.id()].delete_subs;
            let pred = |s: ReactiveSubscriptionId| s != id;
            assert(old(store)@.cells.contains_key(self.id()));
            lemma_filter_keeps_no_dup(subs0, pred, old(store)@.sub_ctr);
            assert(store@.cells =~= old(store)@.cells.insert(
                self.id(),
                CellModel { delete_subs: subs0.filter(pred), ..old(store)@.cells[self.id()] },
            ));
            assert(store@.log =~= old(store)@.log);
            assert(store@.delete_log =~= old(store)@.delete_log);
        }
    }
}

impl<T: Clone> Reactive<T> {
    /// Takes a snapshot of the current value.
    pub fn get_copy(&self, store: &ReactiveStore<T>) -> (t: T)
        requires
            store.wf(),
            self.live(store),
        ensures
            cloned(store@.cells[self.id()].value, t),
    {
        match &store.slots[self.slot] {
            Some(cell) => cell.value.clone(),
            None => unreached(),
        }
    }

    /// Stores `value` and returns the previous value; every current change
    /// subscriber is notified with the new value, in subscription order.
    #[verifier::loop_isolation(false)]
    pub fn replace(&self, store: &mut ReactiveStore<T>, value: T) -> (prev: T)
        requires
            old(store).wf(),
            self.live(&*old(store)),
        ensures
            final(store).wf(),
            prev == old(store)@.cells[self.id()].value,
            final(store)@.cells == old(store)@.cells.insert(
                self.id(),
                CellModel { value, ..old(store)@.cells[self.id()] },
            ),
            notified(
                old(store)@.log,
                final(store)@.log,
                old(store)@.cells[self.id()].subs,
                value,
            ),
            final(store)@.sub_ctr == old(store)@.sub_ctr,
            final(store)@.delete_log == old(store)@.delete_log,
    {
        let ghost pre_log = store@.log;
        let slot_ref = &mut store.slots[self.slot];
        let taken = slot_ref.take();
        let mut cell = match taken {
            Some(c) => c,
            None => unreached(),
        };
        let mut value = value;
        core::mem::swap(&mut cell.value, &mut value);
        let prev = value;

        let ghost mid_slots = store.slots@;
        let ghost pre_nsi = store.next_sub_id;
        let ghost pre_dlog = store.delete_log@;
        let n = cell.subs.len();
        for i in 0..n
            invariant
                n == cell.subs@.len(),
                store.slots@ == mid_slots,
                store.next_sub_id == pre_nsi,
                store.delete_log@ == pre_dlog,
                self.slot < store.slots@.len(),
                store.log@.len() == pre_log.len() + i,
                store.log@.map_values(|d: Delivery<T>| (d.subscriber, d.value)).subrange(
                    0,
                    pre_log.len() as int,
                ) == pre_log,
                forall|j: int| 0 <= j < i ==> #[trigger] store.log@[pre_log.len() + j].subscriber
                    == cell.subs@[j],
                forall|j: int| 0 <= j < i ==> cloned(
                    cell.value,
                    (#[trigger] store.log@[pre_log.len() + j]).value,
                ),
        {
            let sub = cell.subs[i];
            let v = cell.value.clone();
            store.log.push(Delivery { subscriber: sub, value: v });
            proof {
                assert(store.log@.map_values(|d: Delivery<T>| (d.subscriber, d.value)).subrange(
                    0,
                    pre_log.len() as int,
                ) =~= pre_log);
            }
        }
        store.slots[self.slot] = Some(cell);
        proof {
            assert(store@.cells =~= old(store)@.cells.insert(
                self.id(),
                CellModel {
                    value: store@.cells[self.id()].value,
                    ..old(store)@.cells[self.id()]
                },
            ));
            assert(store@.log.subrange(0, pre_log.len() as int) =~= pre_log);
            assert(store@.delete_log =~= old(store)@.delete_log);
        }
        prev
    }

    /// Stores `value`; every current change subscriber is notified with the
    /// new value, in subscription order.
    pub fn set(&self, store: &mut ReactiveStore<T>, value: T)
        requires
            old(store).wf(),
            self.live(&*old(store)),
        ensures
            final(store).wf(),
            final(store)@.cells == old(store)@.cells.insert(
                self.id(),
                CellModel { value, ..old(store)@.cells[self.id()] },
            ),
            notified(
                old(store)@.log,
                final(store)@.log,
                old(store)@.cells[self.id()].subs,
                value,
            ),
            final(store)@.sub_ctr == old(store)@.sub_ctr,
            final(store)@.delete_log == old(store)@.delete_log,
    {
        let _prev = self.replace(store, value);
    }

    /// Rewrites the value in place through `f`, then notifies every current
    /// change subscriber with the resulting value, in subscription order.
    #[verifier::loop_isolation(false)]
    pub fn mutate<F: FnOnce(T) -> T>(&self, store: &mut ReactiveStore<T>, f: F)
        requires
            old(store).wf(),
            self.live(&*old(store)),
            call_requires(f, (old(store)@.cells[self.id()].value,)),
        ensures
            final(store).wf(),
            self.live(&*final(store)),
            call_ensures(
                f,
                (old(store)@.cells[self.id()].value,),
                final(store)@.cells[self.id()].value,
            ),
            final(store)@.cells == old(store)@.cells.insert(
                self.id(),
                CellModel {
                    value: final(store)@.cells[self.id()].value,
                    ..old(store)@.cells[self.id()]
                },
            ),
            notified(
                old(store)@.log,
                final(store)@.log,
                old(store)@.cells[self.id()].subs,
                final(store)@.cells[self.id()].value,
            ),
            final(store)@.sub_ctr == old(store)@.sub_ctr,
            final(store)@.delete_log == old(store)@.delete_log,
    {
        let ghost pre_log = store@.log;
        let slot_ref = &mut store.slots[self.slot];
        let taken = slot_ref.take();
        let mut cell = match taken {
            Some(c) => c,
            None => unreached(),
        };
        let v0 = cell.value;
        let v1 = f(v0);
        cell.value = v1;

        let ghost mid_slots = store.slots@;
        let ghost pre_nsi = store.next_sub_id;
        let ghost pre_dlog = store.delete_log@;
        let n = cell.subs.len();
        for i in 0..n
            invariant
                n == cell.subs@.len(),
                store.slots@ == mid_slots,
                store.next_sub_id == pre_nsi,
                store.delete_log@ == pre_dlog,
                self.slot < store.slots@.len(),
                store.log@.len() == pre_log.len() + i,
                store.log@.map_values(|d: Delivery<T>| (d.subscriber, d.value)).subrange(
                    0,
                    pre_log.len() as int,
                ) == pre_log,
                forall|j: int| 0 <= j < i ==> #[trigger] store.log@[pre_log.len() + j].subscriber
                    == cell.subs@[j],
                forall|j: int| 0 <= j < i ==> cloned(
                    cell.value,
                    (#[trigger] store.log@[pre_log.len() + j]).value,
                ),
        {
            let sub = cell.subs[i];
            let v = cell.value.clone();
            store.log.push(Delivery { subscriber: sub, value: v });
            proof {
                assert(store.log@.map_values(|d: Delivery<T>| (d.subscriber, d.value)).subrange(
                    0,
                    pre_log.len() as int,
                ) =~= pre_log);
            }
        }
        store.slots[self.slot] = Some(cell);
        proof {
            assert(store@.cells =~= old(store)@.cells.insert(
                self.id(),
                CellModel {
                    value: store@.cells[self.id()].value,
                    ..old(store)@.cells[self.id()]
                },
            ));
            assert(store@.log.subrange(0, pre_log.len() as int) =~= pre_log);
            assert(store@.delete_log =~= old(store)@.delete_log);
        }
    }

    /// Retires this handle. While other handles remain the cell only loses
    /// one reference; the release that drops the count to zero frees the
    /// cell and notifies every delete listener, in subscription order, with
    /// the final value — and, the cell being gone, they can never fire
    /// again.
    #[verifier::loop_isolation(false)]
    pub fn release(self, store: &mut ReactiveStore<T>)
        requires
            old(store).wf(),
            self.live(&*old(store)),
        ensures
            final(store).wf(),
            final(store)@.sub_ctr == old(store)@.sub_ctr,
            final(store)@.log == old(store)@.log,
            old(store)@.cells[self.id()].ref_count > 1 ==> {
                &&& final(store)@.cells == old(store)@.cells.insert(
                    self.id(),
                    CellModel {
                        ref_count: (old(store)@.cells[self.id()].ref_count - 1) as nat,
                        ..old(store)@.cells[self.id()]
                    },
                )
                &&& final(store)@.delete_log == old(store)@.delete_log
            },
            old(store)@.cells[self.id()].ref_count == 1 ==> {
                &&& final(store)@.cells == old(store)@.cells.remove(self.id())
                &&& notified(
                    old(store)@.delete_log,
                    final(store)@.delete_log,
                    old(store)@.cells[self.id()].delete_subs,
                    old(store)@.cells[self.id()].value,
                )
            },
    {
        let ghost pre_dlog = store@.delete_log;
        let slot_ref = &mut store.slots[self.slot];
        let taken = slot_ref.take();
        let mut cell = match taken {
            Some(c) => c,
            None => unreached(),
        };
        if cell.ref_count > 1 {
            cell.ref_count = cell.ref_count - 1;
            store.slots[self.slot] = Some(cell);
            proof {
                assert(store@.cells =~= old(store)@.cells.insert(
                    self.id(),
                    CellModel {
                        ref_count: (old(store)@.cells[self.id()].ref_count - 1) as nat,
                        ..old(store)@.cells[self.id()]
                    },
                ));
                assert(store@.log =~= old(store)@.log);
                assert(store@.delete_log =~= old(store)@.delete_log);
            }
        } else {
            let ghost mid_slots = store.slots@;
            let ghost pre_nsi = store.next_sub_id;
            let ghost pre_vlog = store.log@;
            let n = cell.delete_subs.len();
            for i in 0..n
                invariant
                    n == cell.delete_subs@.len(),
                    store.slots@ == mid_slots,
                    store.next_sub_id == pre_nsi,
                    store.log@ == pre_vlog,
                    store.delete_log@.len() == pre_dlog.len() + i,
                    store.delete_log@.map_values(
                        |d: Delivery<T>| (d.subscriber, d.value),
                    ).subrange(0, pre_dlog.len() as int) == pre_dlog,
                    forall|j: int| 0 <= j < i ==> #[trigger] store.delete_log@[pre_dlog.len()
                        + j].subscriber == cell.delete_subs@[j],
                    forall|j: int| 0 <= j < i ==> cloned(
                        cell.value,
                        (#[trigger] store.delete_log@[pre_dlog.len() + j]).value,
                    ),
            {
                let sub = cell.delete_subs[i];
                let v = cell.value.clone();
                store.delete_log.push(Delivery { subscriber: sub, value: v });
                proof {
                    assert(store.delete_log@.map_values(
                        |d: Delivery<T>| (d.subscriber, d.value),
                    ).subrange(0, pre_dlog.len() as int) =~= pre_dlog);
                }
            }
            proof {
                assert(store@.cells =~= old(store)@.cells.remove(self.id()));
                assert(store@.log =~= old(store)@.log);
                assert(store@.delete_log.subrange(0, pre_dlog.len() as int) =~= pre_dlog);
            }
        }
    }
}

} // verus!
