//! Tracks and the project's track group.
//!
//! A track is either a MIDI track, holding an observable clip of note
//! cells, or an audio track holding samples. Track ids come from a
//! counter owned by the [`TrackGroup`] and are never reused.

use std::collections::HashMap;

use vstd::prelude::*;

use crate::midi::MidiClip;
use crate::midi::Note;
use crate::reactive::CellModel;
use crate::reactive::Reactive;
use crate::reactive::ReactiveStore;
use crate::reactive::StoreModel;
use crate::reactive::notified;
use crate::reactive_list::ListModel;
use crate::reactive_list::ReactiveListKey;
use crate::reactive_list::has_key;
use crate::reactive_list::key_index;
use crate::reactive_list::notified_with_key;
use crate::style::Colour;

verus! {

broadcast use vstd::std_specs::hash::group_hash_axioms;

/// Identity of one track, unique for the process lifetime.
pub type TrackId = u32;

/// Placeholder for a loaded instrument.
#[derive(Clone)]
pub struct Instrument {}

/// What kind of data a track carries.
#[derive(Clone, Copy, Debug, PartialEq, Eq, Structural)]
pub enum TrackType {
    Midi,
    Audio,
}

/// A track's payload.
pub enum TrackData {
    Midi(Option<Instrument>, MidiClip),
    Audio(Vec<i16>),
}

impl TrackData {
    pub fn new(type_: TrackType) -> (r: Self)
        ensures
            type_ == TrackType::Midi ==> r is Midi && r->Midi_1.notes@.items == Seq::<(
                ReactiveListKey,
                Reactive<Note>,
            )>::empty() && r->Midi_1.notes@.key_ctr == 0 && r->Midi_1.notes.wf(),
            type_ == TrackType::Audio ==> r is Audio,
    {
        match type_ {
            TrackType::Midi => TrackData::Midi(None, MidiClip::new()),
            TrackType::Audio => TrackData::Audio(Vec::new()),
        }
    }
}

/// One track of the project.
pub struct Track {
    pub uid: TrackId,
    pub name: String,
    pub colour: Colour,
    pub type_: TrackType,
    pub data: TrackData,
}

impl Track {
    /// Whether this track carries MIDI data.
    pub open spec fn is_midi(&self) -> bool {
        self.data is Midi
    }

    /// The model of the note list; meaningful for a MIDI track.
    pub open spec fn clip_list(&self) -> ListModel<Reactive<Note>>
        recommends
            self.is_midi(),
    {
        self.data->Midi_1.notes@
    }

    /// The track is well-formed against the note-cell store.
    pub open spec fn wf_in(&self, store: StoreModel<Note>) -> bool {
        match self.data {
            TrackData::Midi(_, clip) => clip.wf_in(store),
            TrackData::Audio(_) => true,
        }
    }

    /// The track's notes as key/note pairs; empty for an audio track.
    pub open spec fn notes_view(&self, store: StoreModel<Note>) -> Seq<(ReactiveListKey, Note)> {
        match self.data {
            TrackData::Midi(_, clip) => clip.notes_view(store),
            TrackData::Audio(_) => Seq::empty(),
        }
    }

    /// The raw note list entries; empty for an audio track.
    pub open spec fn note_entries(&self) -> Seq<(ReactiveListKey, Reactive<Note>)> {
        match self.data {
            TrackData::Midi(_, clip) => clip.notes@.items,
            TrackData::Audio(_) => Seq::empty(),
        }
    }

    /// The note-key counter; zero for an audio track.
    pub open spec fn note_key_ctr(&self) -> nat {
        match self.data {
            TrackData::Midi(_, clip) => clip.notes@.key_ctr,
            TrackData::Audio(_) => 0,
        }
    }

    /// Everything of the track but its note data.
    pub open spec fn same_shell(&self, other: &Track) -> bool {
        &&& self.uid == other.uid
        &&& self.name == other.name
        &&& self.colour == other.colour
        &&& self.type_ == other.type_
        &&& self.is_midi() == other.is_midi()
    }

    pub fn new(uid: TrackId, type_: TrackType) -> (r: Self)
        ensures
            r.uid == uid,
            r.name@ == "Untitled"@,
            r.colour == (Colour { r: 255, g: 255, b: 255, a: 255 }),
            r.type_ == type_,
            type_ == TrackType::Midi ==> r.is_midi(),
            type_ == TrackType::Audio ==> !r.is_midi(),
            r.note_entries() == Seq::<(ReactiveListKey, Reactive<Note>)>::empty(),
            r.note_key_ctr() == 0,
            forall|m: StoreModel<Note>| #[trigger] r.wf_in(m),
            forall|m: StoreModel<Note>|
                #[trigger] r.notes_view(m) == Seq::<(ReactiveListKey, Note)>::empty(),
    {
        let r = Track {
            uid,
            name: String::from_str("Untitled"),
            colour: Colour { r: 255, g: 255, b: 255, a: 255 },
            type_,
            data: TrackData::new(type_),
        };
        proof {
            assert(r.note_entries() =~= Seq::<(ReactiveListKey, Reactive<Note>)>::empty());
            assert forall|m: StoreModel<Note>| #[trigger] r.wf_in(m) by {
                assert(r.note_entries().len() == 0);
            }
            assert forall|m: StoreModel<Note>|
                #[trigger] r.notes_view(m) == Seq::<(ReactiveListKey, Note)>::empty() by {
                assert(r.notes_view(m) =~= Seq::<(ReactiveListKey, Note)>::empty());
            }
        }
        r
    }

    /// Creates a note cell for `note` and appends it to the clip under a
    /// fresh key; `None` when the track is not a MIDI track.
    pub fn push_note(
        &mut self,
        store: &mut ReactiveStore<Note>,
        note: Note,
    ) -> (r: Option<ReactiveListKey>)
        requires
            old(store).wf(),
            old(self).wf_in(old(store)@),
            old(self).note_key_ctr() < usize::MAX,
        ensures
            final(store).wf(),
            final(self).wf_in(final(store)@),
            final(self).same_shell(&*old(self)),
            old(self).is_midi() ==> {
                let key = old(self).note_key_ctr() as ReactiveListKey;
                let hid = final(self).note_entries().last().1.id();
                &&& r == Some(key)
                &&& (forall|i: int|
                    0 <= i < old(self).note_entries().len()
                        ==> (#[trigger] old(self).note_entries()[i]).0 < key)
                &&& final(self).note_key_ctr() == old(self).note_key_ctr() + 1
                &&& !old(store)@.cells.contains_key(hid)
                &&& final(store)@.cells == old(store)@.cells.insert(
                    hid,
                    CellModel {
                        value: note,
                        ref_count: 1,
                        subs: Seq::<usize>::empty(),
                        delete_subs: Seq::<usize>::empty(),
                    },
                )
                &&& final(self).notes_view(final(store)@) == old(self).notes_view(
                    old(store)@,
                ).push((key, note))
                &&& final(self).note_entries() == old(self).note_entries().push(
                    final(self).note_entries().last(),
                )
                &&& final(self).note_entries().last().0 == key
                &&& notified_with_key(
                    old(self).clip_list().push_log,
                    final(self).clip_list().push_log,
                    old(self).clip_list().push_subs,
                    key,
                )
                &&& final(self).clip_list().push_subs == old(self).clip_list().push_subs
                &&& final(self).clip_list().remove_subs == old(self).clip_list().remove_subs
                &&& final(self).clip_list().sub_ctr == old(self).clip_list().sub_ctr
                &&& final(self).clip_list().remove_log == old(self).clip_list().remove_log
            },
            !old(self).is_midi() ==> {
                &&& r is None
                &&& final(store)@ == old(store)@
                &&& final(self).note_entries() == old(self).note_entries()
                &&& final(self).notes_view(final(store)@) == old(self).notes_view(old(store)@)
                &&& final(self).note_key_ctr() == old(self).note_key_ctr()
            },
            final(store)@.sub_ctr == old(store)@.sub_ctr,
            final(store)@.log == old(store)@.log,
            final(store)@.delete_log == old(store)@.delete_log,
    {
        let r = match &mut self.data {
            TrackData::Midi(_, clip) => {
                let cell = Reactive::new(store, note);
                let key = clip.notes.push(cell);
                Some(key)
            },
            TrackData::Audio(_) => None,
        };
        proof {
            if old(self).is_midi() {
                let key = old(self).note_key_ctr() as ReactiveListKey;
                let entries1 = self.note_entries();
                assert(entries1 == old(self).note_entries().push(entries1.last()));
                assert(self.notes_view(store@) =~= old(self).notes_view(old(store)@).push(
                    (key, note),
                ));
            } else {
                assert(self.notes_view(store@) =~= old(self).notes_view(old(store)@));
            }
        }
        r
    }

    /// Notifies the clip's remove-subscribers with `note_id`, removes the
    /// entry if present and retires the clip's handle to its cell. Does
    /// nothing on an audio track.
    pub fn remove_note(&mut self, store: &mut ReactiveStore<Note>, note_id: ReactiveListKey)
        requires
            old(store).wf(),
            old(self).wf_in(old(store)@),
        ensures
            final(store).wf(),
            final(self).wf_in(final(store)@),
            final(self).same_shell(&*old(self)),
            final(self).note_key_ctr() == old(self).note_key_ctr(),
            final(store)@.sub_ctr == old(store)@.sub_ctr,
            final(store)@.log == old(store)@.log,
            old(self).is_midi() ==> {
                &&& notified_with_key(
                    old(self).clip_list().remove_log,
                    final(self).clip_list().remove_log,
                    old(self).clip_list().remove_subs,
                    note_id,
                )
                &&& final(self).clip_list().push_subs == old(self).clip_list().push_subs
                &&& final(self).clip_list().remove_subs == old(self).clip_list().remove_subs
                &&& final(self).clip_list().sub_ctr == old(self).clip_list().sub_ctr
                &&& final(self).clip_list().push_log == old(self).clip_list().push_log
            },
            old(self).is_midi() && has_key(old(self).note_entries(), note_id) ==> {
                let idx = key_index(old(self).note_entries(), note_id);
                let hid = old(self).note_entries()[idx].1.id();
                let rc = old(store)@.cells[hid].ref_count;
                &&& final(self).note_entries() == old(self).note_entries().remove(idx)
                &&& final(self).notes_view(final(store)@) == old(self).notes_view(
                    old(store)@,
                ).remove(idx)
                &&& (rc == 1 ==> final(store)@.cells == old(store)@.cells.remove(hid) && notified(
                    old(store)@.delete_log,
                    final(store)@.delete_log,
                    old(store)@.cells[hid].delete_subs,
                    old(store)@.cells[hid].value,
                ))
                &&& (rc > 1 ==> final(store)@.cells == old(store)@.cells.insert(
                    hid,
                    CellModel { ref_count: (rc - 1) as nat, ..old(store)@.cells[hid] },
                ) && final(store)@.delete_log == old(store)@.delete_log)
            },
            !(old(self).is_midi() && has_key(old(self).note_entries(), note_id)) ==> {
                &&& final(self).note_entries() == old(self).note_entries()
                &&& final(self).notes_view(final(store)@) == old(self).notes_view(old(store)@)
                &&& final(store)@.cells == old(store)@.cells
                &&& final(store)@.delete_log == old(store)@.delete_log
            },
    {
        let removed: Option<Reactive<Note>> = match &mut self.data {
            TrackData::Midi(_, clip) => clip.notes.remove(note_id),
            TrackData::Audio(_) => None,
        };
        match removed {
            Some(handle) => {
                proof {
                    let items0 = old(self).note_entries();
                    let idx = key_index(items0, note_id);
                    assert(handle.id() == items0[idx].1.id());
                    assert forall|i: int|
                        0 <= i < self.note_entries().len() implies (
                    #[trigger] self.note_entries()[i]).1.id() != handle.id() by {
                        let i0 = if i < idx {
                            i
                        } else {
                            i + 1
                        };
                        assert(self.note_entries()[i] == items0[i0]);
                    }
                }
                handle.release(store);
                proof {
                    let items0 = old(self).note_entries();
                    let idx = key_index(items0, note_id);
                    assert(self.notes_view(store@) =~= old(self).notes_view(old(store)@).remove(
                        idx,
                    ));
                }
            },
            None => {
                proof {
                    if old(self).is_midi() {
                        assert(self.notes_view(store@) =~= old(self).notes_view(old(store)@));
                    }
                }
            },
        }
    }

    /// The note key the next addition will issue; zero for an audio
    /// track. Lets a driver test the key-counter headroom an addition
    /// needs.
    pub fn next_note_key(&self) -> (r: usize)
        ensures
            r == self.note_key_ctr(),
    {
        match &self.data {
            TrackData::Midi(_, clip) => clip.notes.key_counter(),
            TrackData::Audio(_) => 0,
        }
    }

    /// How many notes the track holds; zero for an audio track.
    pub fn note_count(&self) -> (r: usize)
        ensures
            r == self.note_entries().len(),
    {
        match &self.data {
            TrackData::Midi(_, clip) => clip.notes.len(),
            TrackData::Audio(_) => 0,
        }
    }

    /// A snapshot of the note stored under `note_id`; `None` when the
    /// track is not MIDI or the key is unknown.
    pub fn get_note_copy(
        &self,
        store: &ReactiveStore<Note>,
        note_id: ReactiveListKey,
    ) -> (r: Option<Note>)
        requires
            store.wf(),
            self.wf_in(store@),
        ensures
            self.is_midi() && has_key(self.note_entries(), note_id) ==> r == Some(
                self.notes_view(store@)[key_index(self.note_entries(), note_id)].1,
            ),
            !(self.is_midi() && has_key(self.note_entries(), note_id)) ==> r is None,
    {
        match &self.data {
            TrackData::Midi(_, clip) => match clip.notes.get_ref(note_id) {
                Some(handle) => {
                    proof {
                        let idx = key_index(self.note_entries(), note_id);
                        assert(self.note_entries()[idx].1.id() == handle.id());
                    }
                    Some(*handle.get(store))
                },
                None => None,
            },
            TrackData::Audio(_) => None,
        }
    }

    /// Replaces the note stored under `note_id` with `new_note`, returning
    /// the previous value and notifying the cell's subscribers; `None`
    /// (and no change) when the track is not MIDI or the key is unknown.
    pub fn set_note(
        &mut self,
        store: &mut ReactiveStore<Note>,
        note_id: ReactiveListKey,
        new_note: Note,
    ) -> (r: Option<Note>)
        requires
            old(store).wf(),
            old(self).wf_in(old(store)@),
        ensures
            final(store).wf(),
            final(self).wf_in(final(store)@),
            final(self).same_shell(&*old(self)),
            final(self).note_entries() == old(self).note_entries(),
            final(self).note_key_ctr() == old(self).note_key_ctr(),
            final(store)@.sub_ctr == old(store)@.sub_ctr,
            final(store)@.delete_log == old(store)@.delete_log,
            old(self).is_midi() && has_key(old(self).note_entries(), note_id) ==> {
                let idx = key_index(old(self).note_entries(), note_id);
                let hid = old(self).note_entries()[idx].1.id();
                &&& r == Some(old(self).notes_view(old(store)@)[idx].1)
                &&& final(store)@.cells == old(store)@.cells.insert(
                    hid,
                    CellModel { value: new_note, ..old(store)@.cells[hid] },
                )
                &&& final(self).notes_view(final(store)@) == old(self).notes_view(
                    old(store)@,
                ).update(idx, (note_id, new_note))
                &&& notified(
                    old(store)@.log,
                    final(store)@.log,
                    old(store)@.cells[hid].subs,
                    new_note,
                )
            },
            !(old(self).is_midi() && has_key(old(self).note_entries(), note_id)) ==> {
                &&& r is None
                &&& final(store)@ == old(store)@
            },
    {
        let r = match &self.data {
            TrackData::Midi(_, clip) => match clip.notes.get_ref(note_id) {
                Some(handle) => {
                    proof {
                        let idx = key_index(self.note_entries(), note_id);
                        assert(self.note_entries()[idx].1.id() == handle.id());
                    }
                    Some(handle.replace(store, new_note))
                },
                None => None,
            },
            TrackData::Audio(_) => None,
        };
        proof {
            if old(self).is_midi() && has_key(old(self).note_entries(), note_id) {
                let idx = key_index(old(self).note_entries(), note_id);
                assert(self.notes_view(store@) =~= old(self).notes_view(old(store)@).update(
                    idx,
                    (note_id, new_note),
                ));
            }
        }
        r
    }

    /// A fresh handle to the note cell stored under `note_id`; `None` when
    /// the track is not MIDI or the key is unknown.
    pub fn get_note_from_id(
        &self,
        store: &mut ReactiveStore<Note>,
        note_id: ReactiveListKey,
    ) -> (r: Option<Reactive<Note>>)
        requires
            old(store).wf(),
            self.wf_in(old(store)@),
            forall|i: int|
                0 <= i < self.note_entries().len() ==> old(store)@.cells[(
                #[trigger] self.note_entries()[i]).1.id()].ref_count < usize::MAX,
        ensures
            final(store).wf(),
            self.wf_in(final(store)@),
            self.is_midi() && has_key(self.note_entries(), note_id) ==> {
                let h = self.note_entries()[key_index(self.note_entries(), note_id)].1;
                &&& r is Some
                &&& r.unwrap().id() == h.id()
                &&& final(store)@.cells == old(store)@.cells.insert(
                    h.id(),
                    CellModel {
                        ref_count: old(store)@.cells[h.id()].ref_count + 1,
                        ..old(store)@.cells[h.id()]
                    },
                )
            },
            !(self.is_midi() && has_key(self.note_entries(), note_id)) ==> r is None && final(store)@.cells == old(store)@.cells,
            final(store)@.sub_ctr == old(store)@.sub_ctr,
            final(store)@.log == old(store)@.log,
            final(store)@.delete_log == old(store)@.delete_log,
    {
        let r = match &self.data {
            TrackData::Midi(_, clip) => {
                proof {
                    assert forall|i: int|
                        0 <= i < clip.notes@.items.len() implies old(store)@.cells[(
                    #[trigger] clip.notes@.items[i]).1.id()].ref_count < usize::MAX by {
                        assert(self.note_entries()[i] == clip.notes@.items[i]);
                    }
                }
                clip.get_note(store, note_id)
            },
            TrackData::Audio(_) => None,
        };
        proof {
            if self.is_midi() && has_key(self.note_entries(), note_id) {
                assert(self.wf_in(final(store)@)) by {
                    assert(self.wf_in(store@));
                }
            }
        }
        r
    }
}

impl Track {
    /// The notes view reads only the cells of the track's own entries, so
    /// it is unchanged by store updates that leave those cells' values in
    /// place.
    pub proof fn lemma_notes_view_frame(&self, pre: StoreModel<Note>, post: StoreModel<Note>)
        requires
            self.wf_in(pre),
            forall|i: int|
                0 <= i < self.note_entries().len() ==> {
                    let id = (#[trigger] self.note_entries()[i]).1.id();
                    post.cells.contains_key(id) && post.cells[id].value == pre.cells[id].value
                },
        ensures
            self.notes_view(post) == self.notes_view(pre),
            self.wf_in(post),
    {
        if self.is_midi() {
            let entries = self.note_entries();
            assert forall|i: int|
                0 <= i < entries.len() implies self.notes_view(post)[i] == self.notes_view(
                pre,
            )[i] by {
                let id = entries[i].1.id();
                assert(post.cells.contains_key(id) && post.cells[id].value == pre.cells[id].value);
            }
            assert(self.notes_view(post) =~= self.notes_view(pre));
            assert forall|i: int|
                0 <= i < entries.len() implies post.cells.contains_key(
                (#[trigger] entries[i]).1.id(),
            ) by {
                assert(post.cells.contains_key(entries[i].1.id()));
            }
        }
    }

    /// Keys and key positions agree between the raw entries and the
    /// resolved notes view.
    pub proof fn lemma_key_lookup(&self, store: StoreModel<Note>, key: ReactiveListKey)
        requires
            self.wf_in(store),
        ensures
            has_key(self.note_entries(), key) == has_key(self.notes_view(store), key),
            has_key(self.note_entries(), key) ==> key_index(self.note_entries(), key) == key_index(
                self.notes_view(store),
                key,
            ),
    {
        let entries = self.note_entries();
        let view = self.notes_view(store);
        assert(view.len() == entries.len());
        assert(forall|i: int| 0 <= i < entries.len() ==> (#[trigger] view[i]).0 == entries[i].0);
        if has_key(entries, key) {
            let i = key_index(entries, key);
            assert(view[i].0 == key);
            assert(has_key(view, key));
            let j = key_index(view, key);
            assert(entries[j].0 == key);
            if self.is_midi() {
                if i < j {
                    assert(entries[i].0 < entries[j].0);
                }
                if j < i {
                    assert(entries[j].0 < entries[i].0);
                }
            }
            assert(i == j);
        }
        if has_key(view, key) {
            let j = key_index(view, key);
            assert(entries[j].0 == key);
            assert(has_key(entries, key));
        }
    }
}

/// The project's tracks, keyed by id.
pub struct TrackGroup {
    pub tracks: HashMap<TrackId, Track>,
    pub next_uid: TrackId,
}

impl TrackGroup {
    /// The id counter; ids of existing tracks stay below it.
    pub open spec fn spec_next_uid(&self) -> TrackId {
        self.next_uid
    }

    /// Track ids sit under their own key and stay below the counter.
    pub open spec fn ids_wf(&self) -> bool {
        &&& (forall|t: TrackId| #[trigger]
            self.tracks@.contains_key(t) ==> self.tracks@[t].uid == t)
        &&& (forall|t: TrackId| #[trigger] self.tracks@.contains_key(t) ==> t
            < self.spec_next_uid())
    }

    /// Every track sits under its own id, ids stay below the counter, all
    /// tracks are well-formed against the store, and no two tracks share a
    /// note cell.
    pub open spec fn wf_in(&self, store: StoreModel<Note>) -> bool {
        &&& self.ids_wf()
        &&& (forall|t: TrackId| #[trigger]
            self.tracks@.contains_key(t) ==> self.tracks@[t].wf_in(store))
        &&& (forall|t1: TrackId, t2: TrackId, i: int, j: int|
            self.tracks@.contains_key(t1) && self.tracks@.contains_key(t2) && t1 != t2 && 0 <= i
                < self.tracks@[t1].note_entries().len() && 0 <= j
                < self.tracks@[t2].note_entries().len() ==> (
            #[trigger] self.tracks@[t1].note_entries()[i]).1.id() != (
            #[trigger] self.tracks@[t2].note_entries()[j]).1.id())
    }

    pub fn new() -> (r: Self)
        ensures
            r.tracks@ == Map::<TrackId, Track>::empty(),
            r.spec_next_uid() == 0,
    {
        TrackGroup { tracks: HashMap::new(), next_uid: 0 }
    }

    /// Adds a fresh track of the given kind under the next id.
    pub fn add_new(&mut self, type_: TrackType) -> (id: TrackId)
        requires
            old(self).spec_next_uid() < TrackId::MAX,
            old(self).ids_wf(),
        ensures
            final(self).ids_wf(),
            id == old(self).spec_next_uid(),
            !old(self).tracks@.contains_key(id),
            final(self).spec_next_uid() == old(self).spec_next_uid() + 1,
            final(self).tracks@.contains_key(id),
            final(self).tracks@ == old(self).tracks@.insert(id, final(self).tracks@[id]),
            final(self).tracks@[id].uid == id,
            final(self).tracks@[id].name@ == "Untitled"@,
            final(self).tracks@[id].colour == (Colour { r: 255, g: 255, b: 255, a: 255 }),
            final(self).tracks@[id].type_ == type_,
            type_ == TrackType::Midi ==> final(self).tracks@[id].is_midi(),
            type_ == TrackType::Audio ==> !final(self).tracks@[id].is_midi(),
            final(self).tracks@[id].note_entries() == Seq::<(
                ReactiveListKey,
                Reactive<Note>,
            )>::empty(),
            final(self).tracks@[id].note_key_ctr() == 0,
            forall|m: StoreModel<Note>| #[trigger] final(self).tracks@[id].wf_in(m),
            forall|m: StoreModel<Note>|
                #[trigger] final(self).tracks@[id].notes_view(m) == Seq::<(
                    ReactiveListKey,
                    Note,
                )>::empty(),
    {
        let id = self.next_uid;
        self.next_uid = self.next_uid + 1;
        let track = Track::new(id, type_);
        self.tracks.insert(id, track);
        id
    }

    /// Puts `track` under its id, replacing any track already there.
    pub fn append(&mut self, track: Track)
        ensures
            final(self).tracks@ == old(self).tracks@.insert(track.uid, track),
            final(self).spec_next_uid() == old(self).spec_next_uid(),
    {
        let uid = track.uid;
        self.tracks.insert(uid, track);
    }

    /// Removes the track under `track_id`, if any.
    pub fn delete(&mut self, track_id: TrackId)
        ensures
            final(self).tracks@ == old(self).tracks@.remove(track_id),
            final(self).spec_next_uid() == old(self).spec_next_uid(),
    {
        self.tracks.remove(&track_id);
    }

    /// Borrows the track under `track_id`, if any.
    pub fn get(&self, track_id: TrackId) -> (r: Option<&Track>)
        ensures
            self.tracks@.contains_key(track_id) ==> r == Some(&self.tracks@[track_id]),
            !self.tracks@.contains_key(track_id) ==> r is None,
    {
        self.tracks.get(&track_id)
    }

    /// Replacing one track with a well-formed successor keeps the group
    /// well-formed, as long as the successor's new note cells are fresh
    /// and every other track's cells survive.
    pub proof fn lemma_wf_in_update(
        pre: &TrackGroup,
        post: &TrackGroup,
        t: TrackId,
        pre_store: StoreModel<Note>,
        post_store: StoreModel<Note>,
    )
        requires
            pre.wf_in(pre_store),
            post.tracks@ == pre.tracks@.insert(t, post.tracks@[t]),
            post.tracks@.contains_key(t),
            post.spec_next_uid() == pre.spec_next_uid(),
            t < pre.spec_next_uid(),
            post.tracks@[t].uid == t,
            post.tracks@[t].wf_in(post_store),
            forall|u: TrackId|
                #[trigger] pre.tracks@.contains_key(u) && u != t ==> forall|i: int|
                    0 <= i < pre.tracks@[u].note_entries().len() ==> post_store.cells.contains_key(
                        (#[trigger] pre.tracks@[u].note_entries()[i]).1.id(),
                    ),
            forall|i: int|
                0 <= i < post.tracks@[t].note_entries().len() ==> {
                    let id = (#[trigger] post.tracks@[t].note_entries()[i]).1.id();
                    ||| !pre_store.cells.contains_key(id)
                    ||| (pre.tracks@.contains_key(t) && exists|j: int|
                        0 <= j < pre.tracks@[t].note_entries().len() && (
                        #[trigger] pre.tracks@[t].note_entries()[j]).1.id() == id)
                },
        ensures
            post.wf_in(post_store),
    {
        assert forall|u: TrackId| #[trigger]
            post.tracks@.contains_key(u) implies post.tracks@[u].uid == u && u
            < post.spec_next_uid() && post.tracks@[u].wf_in(post_store) by {
            if u != t {
                assert(pre.tracks@.contains_key(u));
                assert(post.tracks@[u] == pre.tracks@[u]);
                let track = pre.tracks@[u];
                assert(track.wf_in(pre_store));
                if track.is_midi() {
                    assert forall|i: int|
                        0 <= i < track.note_entries().len() implies post_store.cells.contains_key(
                        (#[trigger] track.note_entries()[i]).1.id(),
                    ) by {
                        assert(pre.tracks@[u].note_entries()[i] == track.note_entries()[i]);
                    }
                }
            }
        }
        assert forall|t1: TrackId, t2: TrackId, i: int, j: int|
            post.tracks@.contains_key(t1) && post.tracks@.contains_key(t2) && t1 != t2 && 0 <= i
                < post.tracks@[t1].note_entries().len() && 0 <= j
                < post.tracks@[t2].note_entries().len() implies (
        #[trigger] post.tracks@[t1].note_entries()[i]).1.id() != (
        #[trigger] post.tracks@[t2].note_entries()[j]).1.id() by {
            let id1 = post.tracks@[t1].note_entries()[i].1.id();
            let id2 = post.tracks@[t2].note_entries()[j].1.id();
            if t1 != t && t2 != t {
                assert(post.tracks@[t1] == pre.tracks@[t1]);
                assert(post.tracks@[t2] == pre.tracks@[t2]);
            } else if t1 == t {
                assert(post.tracks@[t2] == pre.tracks@[t2]);
                assert(pre.tracks@[t2].wf_in(pre_store));
                assert(pre_store.cells.contains_key(id2));
                let e = post.tracks@[t].note_entries()[i];
                if !pre_store.cells.contains_key(id1) {
                } else {
                    let w = choose|w: int|
                        0 <= w < pre.tracks@[t].note_entries().len() && (
                        #[trigger] pre.tracks@[t].note_entries()[w]).1.id() == id1;
                    assert(pre.tracks@[t].note_entries()[w].1.id() != id2);
                }
            } else {
                assert(post.tracks@[t1] == pre.tracks@[t1]);
                assert(pre.tracks@[t1].wf_in(pre_store));
                assert(pre_store.cells.contains_key(id1));
                if !pre_store.cells.contains_key(id2) {
                } else {
                    let w = choose|w: int|
                        0 <= w < pre.tracks@[t].note_entries().len() && (
                        #[trigger] pre.tracks@[t].note_entries()[w]).1.id() == id2;
                    assert(pre.tracks@[t].note_entries()[w].1.id() != id1);
                }
            }
        }
    }

    /// Takes the track under `track_id` out of the group, if any.
    pub fn take(&mut self, track_id: TrackId) -> (r: Option<Track>)
        ensures
            final(self).spec_next_uid() == old(self).spec_next_uid(),
            old(self).tracks@.contains_key(track_id) ==> r == Some(old(self).tracks@[track_id])
                && final(self).tracks@ == old(self).tracks@.remove(track_id),
            !old(self).tracks@.contains_key(track_id) ==> r is None && final(self).tracks@ == old(self).tracks@,
    {
        self.tracks.remove(&track_id)
    }
}

} // verus!
