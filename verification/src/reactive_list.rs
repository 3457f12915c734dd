//! Keyed, insertion-ordered observable collections.
//!
//! A [`ReactiveList`] holds `(key, item)` entries in insertion order. Keys
//! come from a per-list monotonic counter and are never reused, not even
//! after a removal. Additions and removals notify two independent
//! subscription streams: `push` appends one [`PushRecord`] per current
//! push-subscriber, in subscription order, before the new entry becomes
//! visible to lookups; `remove` appends one [`RemoveRecord`] per current
//! remove-subscriber even when no entry has the key, so consumers must
//! tolerate a removal notice for an item that is already gone.

use vstd::prelude::*;

use crate::reactive::ReactiveSubscriptionId;

verus! {

broadcast use vstd::seq_lib::group_seq_lib_default;

/// Key of one list entry, unique for the lifetime of the list.
pub type ReactiveListKey = usize;

/// Notification record of an addition: `subscriber` was handed `key`.
pub struct PushRecord {
    pub subscriber: ReactiveSubscriptionId,
    pub key: ReactiveListKey,
}

/// Notification record of a removal: `subscriber` was handed `key`.
pub struct RemoveRecord {
    pub subscriber: ReactiveSubscriptionId,
    pub key: ReactiveListKey,
}

/// Observable keyed list; see the module documentation.
pub struct ReactiveList<T> {
    items: Vec<(ReactiveListKey, T)>,
    next_key: usize,
    push_subs: Vec<ReactiveSubscriptionId>,
    remove_subs: Vec<ReactiveSubscriptionId>,
    next_sub_id: usize,
    push_log: Vec<PushRecord>,
    remove_log: Vec<RemoveRecord>,
}

/// Mathematical state of a list.
pub ghost struct ListModel<T> {
    pub items: Seq<(ReactiveListKey, T)>,
    pub key_ctr: nat,
    pub push_subs: Seq<ReactiveSubscriptionId>,
    pub remove_subs: Seq<ReactiveSubscriptionId>,
    pub sub_ctr: nat,
    pub push_log: Seq<(ReactiveSubscriptionId, ReactiveListKey)>,
    pub remove_log: Seq<(ReactiveSubscriptionId, ReactiveListKey)>,
}

/// Whether some entry of `items` carries `key`.
pub open spec fn has_key<T>(items: Seq<(ReactiveListKey, T)>, key: ReactiveListKey) -> bool {
    exists|i: int| 0 <= i < items.len() && (#[trigger] items[i]).0 == key
}

/// The index of the entry carrying `key`; meaningful when [`has_key`]
/// holds and keys are unique.
pub open spec fn key_index<T>(items: Seq<(ReactiveListKey, T)>, key: ReactiveListKey) -> int {
    choose|i: int| 0 <= i < items.len() && (#[trigger] items[i]).0 == key
}

/// The log of `post` extends the one of `pre` with one record per
/// subscriber in `subs`, in order, each carrying `key`.
pub open spec fn notified_with_key(
    pre: Seq<(ReactiveSubscriptionId, ReactiveListKey)>,
    post: Seq<(ReactiveSubscriptionId, ReactiveListKey)>,
    subs: Seq<ReactiveSubscriptionId>,
    key: ReactiveListKey,
) -> bool {
    &&& post.len() == pre.len() + subs.len()
    &&& post.subrange(0, pre.len() as int) == pre
    &&& (forall|i: int| 0 <= i < subs.len() ==> #[trigger] post[pre.len() + i] == (subs[i], key))
}

impl<T> ListModel<T> {
    /// List invariant: entry keys grow strictly in insertion order and stay
    /// below the key counter; subscription ids are unique within each
    /// stream and below the shared counter.
    pub open spec fn inv(self) -> bool {
        &&& (forall|i: int, j: int|
            0 <= i < j < self.items.len() ==> (#[trigger] self.items[i]).0 < (
            #[trigger] self.items[j]).0)
        &&& (forall|i: int|
            0 <= i < self.items.len() ==> (#[trigger] self.items[i]).0 < self.key_ctr)
        &&& (forall|i: int|
            0 <= i < self.push_subs.len() ==> #[trigger] self.push_subs[i] < self.sub_ctr)
        &&& (forall|i: int|
            0 <= i < self.remove_subs.len() ==> #[trigger] self.remove_subs[i] < self.sub_ctr)
        &&& (forall|i: int, j: int|
            0 <= i < j < self.push_subs.len() ==> self.push_subs[i] != self.push_subs[j])
        &&& (forall|i: int, j: int|
            0 <= i < j < self.remove_subs.len() ==> self.remove_subs[i] != self.remove_subs[j])
    }
}

/// Appending a fresh entry under the issued key keeps the invariant.
proof fn lemma_inv_push_item<T>(pre: ListModel<T>, post: ListModel<T>, item: T)
    requires
        pre.inv(),
        post.items == pre.items.push(((pre.key_ctr as ReactiveListKey), item)),
        pre.key_ctr < usize::MAX,
        post.key_ctr == pre.key_ctr + 1,
        post.push_subs == pre.push_subs,
        post.remove_subs == pre.remove_subs,
        post.sub_ctr == pre.sub_ctr,
    ensures
        post.inv(),
{
    assert forall|i: int, j: int|
        0 <= i < j < post.items.len() implies (#[trigger] post.items[i]).0 < (
    #[trigger] post.items[j]).0 by {
        if j < pre.items.len() {
            assert(post.items[i] == pre.items[i]);
            assert(post.items[j] == pre.items[j]);
        } else {
            assert(post.items[i] == pre.items[i]);
            assert(pre.items[i].0 < pre.key_ctr);
        }
    }
    assert forall|i: int|
        0 <= i < post.items.len() implies (#[trigger] post.items[i]).0 < post.key_ctr by {
        if i < pre.items.len() {
            assert(post.items[i] == pre.items[i]);
            assert(pre.items[i].0 < pre.key_ctr);
        }
    }
    assert forall|i: int|
        0 <= i < post.push_subs.len() implies #[trigger] post.push_subs[i] < post.sub_ctr by {
        assert(post.push_subs[i] == pre.push_subs[i]);
    }
    assert forall|i: int|
        0 <= i < post.remove_subs.len() implies #[trigger] post.remove_subs[i] < post.sub_ctr by {
        assert(post.remove_subs[i] == pre.remove_subs[i]);
    }
}

/// Removing one entry keeps the invariant.
proof fn lemma_inv_remove_item<T>(pre: ListModel<T>, post: ListModel<T>, idx: int)
    requires
        pre.inv(),
        0 <= idx < pre.items.len(),
        post.items == pre.items.remove(idx),
        post.key_ctr == pre.key_ctr,
        post.push_subs == pre.push_subs,
        post.remove_subs == pre.remove_subs,
        post.sub_ctr == pre.sub_ctr,
    ensures
        post.inv(),
{
    assert forall|a: int, b: int|
        0 <= a < b < post.items.len() implies (#[trigger] post.items[a]).0 < (
    #[trigger] post.items[b]).0 by {
        let a0 = if a < idx {
            a
        } else {
            a + 1
        };
        let b0 = if b < idx {
            b
        } else {
            b + 1
        };
        assert(post.items[a] == pre.items[a0]);
        assert(post.items[b] == pre.items[b0]);
    }
    assert forall|a: int|
        0 <= a < post.items.len() implies (#[trigger] post.items[a]).0 < post.key_ctr by {
        let a0 = if a < idx {
            a
        } else {
            a + 1
        };
        assert(post.items[a] == pre.items[a0]);
        assert(pre.items[a0].0 < pre.key_ctr);
    }
    assert forall|i: int|
        0 <= i < post.push_subs.len() implies #[trigger] post.push_subs[i] < post.sub_ctr by {
        assert(post.push_subs[i] == pre.push_subs[i]);
    }
    assert forall|i: int|
        0 <= i < post.remove_subs.len() implies #[trigger] post.remove_subs[i] < post.sub_ctr by {
        assert(post.remove_subs[i] == pre.remove_subs[i]);
    }
}

/// The invariant only reads the entries, counters and subscriber lists, so
/// states agreeing on those share it.
proof fn lemma_inv_same_core<T>(pre: ListModel<T>, post: ListModel<T>)
    requires
        pre.inv(),
        post.items == pre.items,
        post.key_ctr == pre.key_ctr,
        post.push_subs == pre.push_subs,
        post.remove_subs == pre.remove_subs,
        post.sub_ctr == pre.sub_ctr,
    ensures
        post.inv(),
{
    assert forall|i: int, j: int|
        0 <= i < j < post.items.len() implies (#[trigger] post.items[i]).0 < (
    #[trigger] post.items[j]).0 by {
        assert(post.items[i] == pre.items[i]);
        assert(post.items[j] == pre.items[j]);
    }
    assert forall|i: int|
        0 <= i < post.items.len() implies (#[trigger] post.items[i]).0 < post.key_ctr by {
        assert(post.items[i] == pre.items[i]);
    }
    assert forall|i: int|
        0 <= i < post.push_subs.len() implies #[trigger] post.push_subs[i] < post.sub_ctr by {
        assert(post.push_subs[i] == pre.push_subs[i]);
    }
    assert forall|i: int|
        0 <= i < post.remove_subs.len() implies #[trigger] post.remove_subs[i] < post.sub_ctr by {
        assert(post.remove_subs[i] == pre.remove_subs[i]);
    }
    assert forall|i: int, j: int|
        0 <= i < j < post.push_subs.len() implies post.push_subs[i] != post.push_subs[j] by {
        assert(post.push_subs[i] == pre.push_subs[i]);
        assert(post.push_subs[j] == pre.push_subs[j]);
    }
    assert forall|i: int, j: int|
        0 <= i < j < post.remove_subs.len() implies post.remove_subs[i] != post.remove_subs[j] by {
        assert(post.remove_subs[i] == pre.remove_subs[i]);
        assert(post.remove_subs[j] == pre.remove_subs[j]);
    }
}

/// Registering a fresh subscriber id keeps the invariant.
proof fn lemma_inv_add_sub<T>(pre: ListModel<T>, post: ListModel<T>, id: ReactiveSubscriptionId)
    requires
        pre.inv(),
        id == pre.sub_ctr,
        pre.sub_ctr < usize::MAX,
        post.sub_ctr == pre.sub_ctr + 1,
        post.items == pre.items,
        post.key_ctr == pre.key_ctr,
        post.push_subs == pre.push_subs.push(id) || post.push_subs == pre.push_subs,
        post.remove_subs == pre.remove_subs.push(id) || post.remove_subs == pre.remove_subs,
    ensures
        post.inv(),
{
    assert forall|i: int|
        0 <= i < post.push_subs.len() implies #[trigger] post.push_subs[i] < post.sub_ctr by {
        if i < pre.push_subs.len() {
            assert(post.push_subs[i] == pre.push_subs[i]);
        }
    }
    assert forall|i: int|
        0 <= i < post.remove_subs.len() implies #[trigger] post.remove_subs[i] < post.sub_ctr by {
        if i < pre.remove_subs.len() {
            assert(post.remove_subs[i] == pre.remove_subs[i]);
        }
    }
    assert forall|i: int, j: int|
        0 <= i < j < post.push_subs.len() implies post.push_subs[i] != post.push_subs[j] by {
        assert(post.push_subs[i] == pre.push_subs[i]);
        if j < pre.push_subs.len() {
            assert(post.push_subs[j] == pre.push_subs[j]);
        } else {
            assert(pre.push_subs[i] < pre.sub_ctr);
        }
    }
    assert forall|i: int, j: int|
        0 <= i < j < post.remove_subs.len() implies post.remove_subs[i] != post.remove_subs[j] by {
        assert(post.remove_subs[i] == pre.remove_subs[i]);
        if j < pre.remove_subs.len() {
            assert(post.remove_subs[j] == pre.remove_subs[j]);
        } else {
            assert(pre.remove_subs[i] < pre.sub_ctr);
        }
    }
}

impl<T> View for ReactiveList<T> {
    type V = ListModel<T>;

    closed spec fn view(&self) -> ListModel<T> {
        ListModel {
            items: self.items@,
            key_ctr: self.next_key as nat,
            push_subs: self.push_subs@,
            remove_subs: self.remove_subs@,
            sub_ctr: self.next_sub_id as nat,
            push_log: self.push_log@.map_values(|r: PushRecord| (r.subscriber, r.key)),
            remove_log: self.remove_log@.map_values(|r: RemoveRecord| (r.subscriber, r.key)),
        }
    }
}

impl<T> ReactiveList<T> {
    /// Well-formedness carried by every list the library hands out.
    pub open spec fn wf(&self) -> bool {
        self@.inv()
    }

    pub fn new() -> (r: Self)
        ensures
            r.wf(),
            r@.items == Seq::<(ReactiveListKey, T)>::empty(),
            r@.key_ctr == 0,
            r@.push_subs == Seq::<ReactiveSubscriptionId>::empty(),
            r@.remove_subs == Seq::<ReactiveSubscriptionId>::empty(),
            r@.sub_ctr == 0,
            r@.push_log == Seq::<(ReactiveSubscriptionId, ReactiveListKey)>::empty(),
            r@.remove_log == Seq::<(ReactiveSubscriptionId, ReactiveListKey)>::empty(),
    {
        let r = ReactiveList {
            items: Vec::new(),
            next_key: 0,
            push_subs: Vec::new(),
            remove_subs: Vec::new(),
            next_sub_id: 0,
            push_log: Vec::new(),
            remove_log: Vec::new(),
        };
        proof {
            assert(r@.items =~= Seq::<(ReactiveListKey, T)>::empty());
            assert(r@.push_subs =~= Seq::<ReactiveSubscriptionId>::empty());
            assert(r@.remove_subs =~= Seq::<ReactiveSubscriptionId>::empty());
            assert(r@.push_log =~= Seq::<(ReactiveSubscriptionId, ReactiveListKey)>::empty());
            assert(r@.remove_log =~= Seq::<(ReactiveSubscriptionId, ReactiveListKey)>::empty());
        }
        r
    }

    /// Appends `item` under a fresh key, strictly larger than every key the
    /// list has ever issued, and notifies every current push-subscriber
    /// with the key before the entry is reachable through any lookup.
    #[verifier::loop_isolation(false)]
    pub fn push(&mut self, item: T) -> (key: ReactiveListKey)
        requires
            old(self).wf(),
            old(self)@.key_ctr < usize::MAX,
        ensures
            final(self).wf(),
            key == old(self)@.key_ctr,
            forall|i: int|
                0 <= i < old(self)@.items.len() ==> (#[trigger] old(self)@.items[i]).0 < key,
            final(self)@.items == old(self)@.items.push((key, item)),
            final(self)@.key_ctr == old(self)@.key_ctr + 1,
            notified_with_key(
                old(self)@.push_log,
                final(self)@.push_log,
                old(self)@.push_subs,
                key,
            ),
            final(self)@.push_subs == old(self)@.push_subs,
            final(self)@.remove_subs == old(self)@.remove_subs,
            final(self)@.sub_ctr == old(self)@.sub_ctr,
            final(self)@.remove_log == old(self)@.remove_log,
    {
        let key = self.next_key;
        self.next_key = self.next_key + 1;

        let ghost pre_log = self@.push_log;
        let n = self.push_subs.len();
        for i in 0..n
            invariant
                n == self.push_subs@.len(),
                self.push_subs@ == old(self).push_subs@,
                self.items@ == old(self).items@,
                self.remove_subs@ == old(self).remove_subs@,
                self.remove_log@ == old(self).remove_log@,
                self.next_sub_id == old(self).next_sub_id,
                self.next_key == old(self).next_key + 1,
                key == old(self).next_key,
                self.push_log@.len() == pre_log.len() + i,
                self.push_log@.map_values(|r: PushRecord| (r.subscriber, r.key)).subrange(
                    0,
                    pre_log.len() as int,
                ) == pre_log,
                forall|j: int| 0 <= j < i ==> #[trigger] self.push_log@[pre_log.len() + j]
                    == (PushRecord { subscriber: self.push_subs@[j], key }),
        {
            let sub = self.push_subs[i];
            self.push_log.push(PushRecord { subscriber: sub, key });
            proof {
                assert(self.push_log@.map_values(|r: PushRecord| (r.subscriber, r.key)).subrange(
                    0,
                    pre_log.len() as int,
                ) =~= pre_log);
            }
        }

        self.items.push((key, item));
        proof {
            assert(self@.push_log.subrange(0, pre_log.len() as int) =~= pre_log);
            assert(self@.items =~= old(self)@.items.push((key, item)));
            lemma_inv_push_item(old(self)@, self@, item);
        }
        key
    }

    /// Notifies every current remove-subscriber with `key`, then removes
    /// the entry carrying `key`, returning its item; when no entry has the
    /// key the list is unchanged, `None` comes back, and the subscribers
    /// have still been notified.
    #[verifier::loop_isolation(false)]
    pub fn remove(&mut self, key: ReactiveListKey) -> (removed: Option<T>)
        requires
            old(self).wf(),
        ensures
            final(self).wf(),
            notified_with_key(
                old(self)@.remove_log,
                final(self)@.remove_log,
                old(self)@.remove_subs,
                key,
            ),
            has_key(old(self)@.items, key) ==> {
                let idx = key_index(old(self)@.items, key);
                &&& removed == Some(old(self)@.items[idx].1)
                &&& final(self)@.items == old(self)@.items.remove(idx)
            },
            !has_key(old(self)@.items, key) ==> {
                &&& removed is None
                &&& final(self)@.items == old(self)@.items
            },
            final(self)@.key_ctr == old(self)@.key_ctr,
            final(self)@.push_subs == old(self)@.push_subs,
            final(self)@.remove_subs == old(self)@.remove_subs,
            final(self)@.sub_ctr == old(self)@.sub_ctr,
            final(self)@.push_log == old(self)@.push_log,
    {
        let ghost pre_log = self@.remove_log;
        let n = self.remove_subs.len();
        for i in 0..n
            invariant
                n == self.remove_subs@.len(),
                self.remove_subs@ == old(self).remove_subs@,
                self.push_subs@ == old(self).push_subs@,
                self.items@ == old(self).items@,
                self.push_log@ == old(self).push_log@,
                self.next_sub_id == old(self).next_sub_id,
                self.next_key == old(self).next_key,
                self.remove_log@.len() == pre_log.len() + i,
                self.remove_log@.map_values(|r: RemoveRecord| (r.subscriber, r.key)).subrange(
                    0,
                    pre_log.len() as int,
                ) == pre_log,
                forall|j: int| 0 <= j < i ==> #[trigger] self.remove_log@[pre_log.len() + j]
                    == (RemoveRecord { subscriber: self.remove_subs@[j], key }),
        {
            let sub = self.remove_subs[i];
            self.remove_log.push(RemoveRecord { subscriber: sub, key });
            proof {
                assert(self.remove_log@.map_values(
                    |r: RemoveRecord| (r.subscriber, r.key),
                ).subrange(0, pre_log.len() as int) =~= pre_log);
            }
        }
        proof {
            assert(self@.remove_log.subrange(0, pre_log.len() as int) =~= pre_log);
        }
        let ghost done_rlog = self@.remove_log;

        let m = self.items.len();
        for i in 0..m
            invariant
                m == self.items@.len(),
                self.items@ == old(self).items@,
                self.push_subs@ == old(self).push_subs@,
                self.remove_subs@ == old(self).remove_subs@,
                self.push_log@ == old(self).push_log@,
                self.next_sub_id == old(self).next_sub_id,
                self.next_key == old(self).next_key,
                self@.remove_log == done_rlog,
                forall|j: int| 0 <= j < i ==> (#[trigger] self.items@[j]).0 != key,
        {
            if self.items[i].0 == key {
                let (_, item) = self.items.remove(i);
                proof {
                    assert(old(self)@.inv());
                    let items0 = old(self)@.items;
                    let idx = key_index(items0, key);
                    assert(items0[i as int].0 == key);
                    assert(has_key(items0, key));
                    assert(0 <= idx < items0.len() && items0[idx].0 == key);
                    if idx < i {
                        assert(items0[idx].0 < items0[i as int].0);
                    }
                    if idx > i {
                        assert(items0[i as int].0 < items0[idx].0);
                    }
                    assert(idx == i);
                    lemma_inv_remove_item(old(self)@, self@, i as int);
                }
                return Some(item);
            }
        }
        proof {
            assert(!has_key(old(self)@.items, key));
            lemma_inv_same_core(old(self)@, self@);
        }
        None
    }

    /// Registers a push-subscriber; the id is fresh for this list.
    pub fn subscribe_to_push(&mut self) -> (id: ReactiveSubscriptionId)
        requires
            old(self).wf(),
            old(self)@.sub_ctr < usize::MAX,
        ensures
            final(self).wf(),
            id == old(self)@.sub_ctr,
            final(self)@.sub_ctr == old(self)@.sub_ctr + 1,
            !old(self)@.push_subs.contains(id),
            !old(self)@.remove_subs.contains(id),
            final(self)@.push_subs == old(self)@.push_subs.push(id),
            final(self)@ == (ListModel {
                push_subs: old(self)@.push_subs.push(id),
                sub_ctr: old(self)@.sub_ctr + 1,
                ..old(self)@
            }),
    {
        let id = self.next_sub_id;
        self.next_sub_id = self.next_sub_id + 1;
        self.push_subs.push(id);
        proof {
            assert(self@.push_subs =~= old(self)@.push_subs.push(id));
            lemma_inv_add_sub(old(self)@, self@, id);
        }
        id
    }

    /// Removes the push subscription `id`; an unknown id is a no-op.
    #[verifier::loop_isolation(false)]
    pub fn unsubscribe_to_push(&mut self, id: ReactiveSubscriptionId)
        requires
            old(self).wf(),
        ensures
            final(self).wf(),
            final(self)@ == (ListModel {
                push_subs: old(self)@.push_subs.filter(|s: ReactiveSubscriptionId| s != id),
                ..old(self)@
            }),
    {
        let mut kept: Vec<ReactiveSubscriptionId> = Vec::new();
        let n = self.push_subs.len();
        for i in 0..n
            invariant
                n == self.push_subs@.len(),
                self.push_subs@ == old(self).push_subs@,
                self.items@ == old(self).items@,
                self.remove_subs@ == old(self).remove_subs@,
                self.push_log@ == old(self).push_log@,
                self.remove_log@ == old(self).remove_log@,
                self.next_sub_id == old(self).next_sub_id,
                self.next_key == old(self).next_key,
                kept@ == self.push_subs@.subrange(0, i as int).filter(
                    |s: ReactiveSubscriptionId| s != id,
                ),
        {
            proof {
                assert(self.push_subs@.subrange(0, i + 1int).drop_last()
                    =~= self.push_subs@.subrange(0, i as int));
                reveal_with_fuel(Seq::filter, 2);
            }
            if self.push_subs[i] != id {
                kept.push(self.push_subs[i]);
            }
        }
        proof {
            assert(self.push_subs@.subrange(0, n as int) =~= self.push_subs@);
            crate::reactive::lemma_filter_keeps_no_dup(
                old(self)@.push_subs,
                |s: ReactiveSubscriptionId| s != id,
                old(self)@.sub_ctr,
            );
        }
        self.push_subs = kept;
    }

    /// Registers a remove-subscriber; the id is fresh for this list.
    pub fn subscribe_to_remove(&mut self) -> (id: ReactiveSubscriptionId)
        requires
            old(self).wf(),
            old(self)@.sub_ctr < usize::MAX,
        ensures
            final(self).wf(),
            id == old(self)@.sub_ctr,
            final(self)@.sub_ctr == old(self)@.sub_ctr + 1,
            !old(self)@.push_subs.contains(id),
            !old(self)@.remove_subs.contains(id),
            final(self)@.remove_subs == old(self)@.remove_subs.push(id),
            final(self)@ == (ListModel {
                remove_subs: old(self)@.remove_subs.push(id),
                sub_ctr: old(self)@.sub_ctr + 1,
                ..old(self)@
            }),
    {
        let id = self.next_sub_id;
        self.next_sub_id = self.next_sub_id + 1;
        self.remove_subs.push(id);
        proof {
            assert(self@.remove_subs =~= old(self)@.remove_subs.push(id));
            lemma_inv_add_sub(old(self)@, self@, id);
        }
        id
    }

    /// Removes the remove subscription `id`; an unknown id is a no-op.
    #[verifier::loop_isolation(false)]
    pub fn unsubscribe_to_remove(&mut self, id: ReactiveSubscriptionId)
        requires
            old(self).wf(),
        ensures
            final(self).wf(),
            final(self)@ == (ListModel {
                remove_subs: old(self)@.remove_subs.filter(|s: ReactiveSubscriptionId| s != id),
                ..old(self)@
            }),
    {
        let mut kept: Vec<ReactiveSubscriptionId> = Vec::new();
        let n = self.remove_subs.len();
        for i in 0..n
            invariant
                n == self.remove_subs@.len(),
                self.remove_subs@ == old(self).remove_subs@,
                self.items@ == old(self).items@,
                self.push_subs@ == old(self).push_subs@,
                self.push_log@ == old(self).push_log@,
                self.remove_log@ == old(self).remove_log@,
                self.next_sub_id == old(self).next_sub_id,
                self.next_key == old(self).next_key,
                kept@ == self.remove_subs@.subrange(0, i as int).filter(
                    |s: ReactiveSubscriptionId| s != id,
                ),
        {
            proof {
                assert(self.remove_subs@.subrange(0, i + 1int).drop_last()
                    =~= self.remove_subs@.subrange(0, i as int));
                reveal_with_fuel(Seq::filter, 2);
            }
            if self.remove_subs[i] != id {
                kept.push(self.remove_subs[i]);
            }
        }
        proof {
            assert(self.remove_subs@.subrange(0, n as int) =~= self.remove_subs@);
            crate::reactive::lemma_filter_keeps_no_dup(
                old(self)@.remove_subs,
                |s: ReactiveSubscriptionId| s != id,
                old(self)@.sub_ctr,
            );
        }
        self.remove_subs = kept;
    }

    /// Borrows the item stored under `key`, if any.
    #[verifier::loop_isolation(false)]
    pub fn get_ref(&self, key: ReactiveListKey) -> (r: Option<&T>)
        requires
            self.wf(),
        ensures
            has_key(self@.items, key) ==> r == Some(&self@.items[key_index(self@.items, key)].1),
            !has_key(self@.items, key) ==> r is None,
    {
        let m = self.items.len();
        for i in 0..m
            invariant
                m == self.items@.len(),
                forall|j: int| 0 <= j < i ==> (#[trigger] self.items@[j]).0 != key,
        {
            if self.items[i].0 == key {
                proof {
                    let idx = key_index(self@.items, key);
                    assert(self@.items[i as int].0 == key);
                    assert(has_key(self@.items, key));
                    assert(0 <= idx < self@.items.len() && self@.items[idx].0 == key);
                    assert(idx == i);
                }
                return Some(&self.items[i].1);
            }
        }
        None
    }

    /// The number of entries.
    pub fn len(&self) -> (r: usize)
        ensures
            r == self@.items.len(),
    {
        self.items.len()
    }

    /// The key counter: the key the next push will issue.
    pub fn key_counter(&self) -> (r: usize)
        ensures
            r == self@.key_ctr,
    {
        self.next_key
    }

    /// Drains the push log: the caller dispatches the records.
    pub fn take_push_log(&mut self) -> (r: Vec<PushRecord>)
        requires
            old(self).wf(),
        ensures
            final(self).wf(),
            r@.map_values(|x: PushRecord| (x.subscriber, x.key)) == old(self)@.push_log,
            final(self)@ == (ListModel {
                push_log: Seq::<(ReactiveSubscriptionId, ReactiveListKey)>::empty(),
                ..old(self)@
            }),
    {
        let mut out: Vec<PushRecord> = Vec::new();
        core::mem::swap(&mut out, &mut self.push_log);
        proof {
            assert(self@.push_log =~= Seq::<(ReactiveSubscriptionId, ReactiveListKey)>::empty());
        }
        out
    }

    /// Drains the remove log: the caller dispatches the records.
    pub fn take_remove_log(&mut self) -> (r: Vec<RemoveRecord>)
        requires
            old(self).wf(),
        ensures
            final(self).wf(),
            r@.map_values(|x: RemoveRecord| (x.subscriber, x.key)) == old(self)@.remove_log,
            final(self)@ == (ListModel {
                remove_log: Seq::<(ReactiveSubscriptionId, ReactiveListKey)>::empty(),
                ..old(self)@
            }),
    {
        let mut out: Vec<RemoveRecord> = Vec::new();
        core::mem::swap(&mut out, &mut self.remove_log);
        proof {
            assert(self@.remove_log =~= Seq::<(ReactiveSubscriptionId, ReactiveListKey)>::empty());
        }
        out
    }
}

/// A push-subscriber registered before a push always observes the new
/// key no later than any reader: the key was never in the list before
/// the push (keys are issued fresh), and by the time the entry is
/// visible, the subscriber's notification record carrying exactly that
/// key already exists.
pub proof fn lemma_push_notifies_subscriber<T>(
    pre: ListModel<T>,
    post: ListModel<T>,
    item: T,
    key: ReactiveListKey,
    sub: ReactiveSubscriptionId,
)
    requires
        pre.inv(),
        pre.push_subs.contains(sub),
        key == pre.key_ctr,
        post.items == pre.items.push((key, item)),
        notified_with_key(pre.push_log, post.push_log, pre.push_subs, key),
    ensures
        !has_key(pre.items, key),
        has_key(post.items, key),
        exists|i: int|
            pre.push_log.len() <= i < post.push_log.len() && #[trigger] post.push_log[i] == (
            sub,
            key,
        ),
{
    assert(!has_key(pre.items, key)) by {
        if has_key(pre.items, key) {
            let w = key_index(pre.items, key);
            assert(pre.items[w].0 < pre.key_ctr);
        }
    }
    assert(post.items[post.items.len() - 1].0 == key);
    assert(has_key(post.items, key));
    let w = choose|w: int| 0 <= w < pre.push_subs.len() && pre.push_subs[w] == sub;
    assert(post.push_log[pre.push_log.len() + w] == (sub, key));
}

impl<T: Clone> ReactiveList<T> {
    /// Takes a snapshot of the item stored under `key`, if any.
    pub fn get_copy(&self, key: ReactiveListKey) -> (r: Option<T>)
        requires
            self.wf(),
        ensures
            has_key(self@.items, key) ==> r is Some && cloned(
                self@.items[key_index(self@.items, key)].1,
                r.unwrap(),
            ),
            !has_key(self@.items, key) ==> r is None,
    {
        match self.get_ref(key) {
            Some(item) => Some(item.clone()),
            None => None,
        }
    }

    /// Takes a snapshot of all entries, in insertion order.
    #[verifier::loop_isolation(false)]
    pub fn copy_of_whole_list(&self) -> (r: Vec<(ReactiveListKey, T)>)
        requires
            self.wf(),
        ensures
            r@.len() == self@.items.len(),
            forall|i: int| 0 <= i < r@.len() ==> (#[trigger] r@[i]).0 == self@.items[i].0,
            forall|i: int| 0 <= i < r@.len() ==> cloned(self@.items[i].1, (#[trigger] r@[i]).1),
    {
        let mut out: Vec<(ReactiveListKey, T)> = Vec::new();
        let m = self.items.len();
        for i in 0..m
            invariant
                m == self.items@.len(),
                out@.len() == i,
                forall|j: int| 0 <= j < i ==> (#[trigger] out@[j]).0 == self@.items[j].0,
                forall|j: int| 0 <= j < i ==> cloned(self@.items[j].1, (#[trigger] out@[j]).1),
        {
            let key = self.items[i].0;
            let item = self.items[i].1.clone();
            out.push((key, item));
        }
        out
    }
}

} // verus!
