//! Notes, note clips and MIDI events.
//!
//! Musical time is measured in integer ticks of [`TICKS_PER_BEAT`] per
//! beat. A [`MidiClip`] is an observable list of note cells: the list's
//! push/remove streams drive creation and teardown of per-note interface
//! elements, while each note's own cell notifies content changes
//! independently.

use vstd::prelude::*;

use crate::reactive::CellModel;
use crate::reactive::StoreModel;
use crate::reactive::Reactive;
use crate::reactive::ReactiveStore;
use crate::reactive_list::ReactiveList;
use crate::reactive_list::ReactiveListKey;
use crate::reactive_list::has_key;
use crate::reactive_list::key_index;

verus! {

/// Musical time in ticks.
pub type Time = i64;

/// Tick resolution of one beat.
pub const TICKS_PER_BEAT: Time = 960;

/// One note of a clip: pitch, velocity, onset and duration in ticks.
#[derive(Clone, Copy, Debug, PartialEq, Eq, Structural)]
pub struct Note {
    pub note: u32,
    pub velocity: u32,
    pub start: Time,
    pub length: Time,
}

/// Pitch and velocity of a note-on or note-off.
#[derive(Clone, Copy, Debug, PartialEq, Eq, Structural)]
pub struct NoteEvent {
    pub note: u32,
    pub velocity: u32,
}

/// The payload of a [`MidiEvent`].
#[derive(Clone, Copy, Debug, PartialEq, Eq, Structural)]
pub enum MidiEventData {
    NoteOn { note: NoteEvent },
    NoteOff { note: NoteEvent },
}

/// One timed MIDI event.
#[derive(Clone, Copy, Debug, PartialEq, Eq, Structural)]
pub struct MidiEvent {
    pub time: Time,
    pub data: MidiEventData,
}

/// A raw event as read from a MIDI input device.
#[derive(Clone, Copy, Debug)]
pub struct MidiInputEvent {
    pub channel: u8,
    pub stamp: u32,
    pub message: [u8; 3],
}

impl MidiEvent {
    /// The MIDI status byte of this event on channel zero.
    pub fn status_byte(&self) -> (r: u8)
        ensures
            r == (match self.data {
                MidiEventData::NoteOn { .. } => 0x90u8,
                MidiEventData::NoteOff { .. } => 0x80u8,
            }),
    {
        match self.data {
            MidiEventData::NoteOn { .. } => 0x90,
            MidiEventData::NoteOff { .. } => 0x80,
        }
    }

    /// The note payload of this event.
    pub fn note(&self) -> (r: Option<NoteEvent>)
        ensures
            r == (match self.data {
                MidiEventData::NoteOn { note } => Some(note),
                MidiEventData::NoteOff { note } => Some(note),
            }),
    {
        match self.data {
            MidiEventData::NoteOn { note } => Some(note),
            MidiEventData::NoteOff { note } => Some(note),
        }
    }
}

impl Note {
    /// The note-on at the note's start and the note-off at its end, with
    /// velocity zero on the note-off.
    pub fn to_midi_events(&self) -> (r: Vec<MidiEvent>)
        requires
            i64::MIN <= self.start + self.length <= i64::MAX,
        ensures
            r@.len() == 2,
            r@[0] == (MidiEvent {
                time: self.start,
                data: MidiEventData::NoteOn {
                    note: NoteEvent { note: self.note, velocity: self.velocity },
                },
            }),
            r@[1] == (MidiEvent {
                time: (self.start + self.length) as i64,
                data: MidiEventData::NoteOff {
                    note: NoteEvent { note: self.note, velocity: 0 },
                },
            }),
    {
        let mut r: Vec<MidiEvent> = Vec::new();
        r.push(
            MidiEvent {
                time: self.start,
                data: MidiEventData::NoteOn {
                    note: NoteEvent { note: self.note, velocity: self.velocity },
                },
            },
        );
        r.push(
            MidiEvent {
                time: self.start + self.length,
                data: MidiEventData::NoteOff {
                    note: NoteEvent { note: self.note, velocity: 0 },
                },
            },
        );
        r
    }
}

/// An observable collection of note cells.
pub struct MidiClip {
    pub notes: ReactiveList<Reactive<Note>>,
}

impl MidiClip {
    /// The clip is well-formed against the note-cell store: its list is
    /// well-formed, every entry's cell is live, and no two entries share a
    /// cell.
    pub open spec fn wf_in(&self, store: StoreModel<Note>) -> bool {
        &&& self.notes.wf()
        &&& (forall|i: int|
            0 <= i < self.notes@.items.len() ==> store.cells.contains_key(
                (#[trigger] self.notes@.items[i]).1.id(),
            ))
        &&& (forall|i: int, j: int|
            0 <= i < j < self.notes@.items.len() ==> (#[trigger] self.notes@.items[i]).1.id() != (
            #[trigger] self.notes@.items[j]).1.id())
    }

    /// The clip's contents as key/note pairs, resolved through the store.
    pub open spec fn notes_view(&self, store: StoreModel<Note>) -> Seq<(
        ReactiveListKey,
        Note,
    )> {
        self.notes@.items.map_values(
            |e: (ReactiveListKey, Reactive<Note>)| (e.0, store.cells[e.1.id()].value),
        )
    }

    pub fn new() -> (r: Self)
        ensures
            r.notes@.items == Seq::<(ReactiveListKey, Reactive<Note>)>::empty(),
            r.notes@.key_ctr == 0,
            r.notes.wf(),
    {
        MidiClip { notes: ReactiveList::new() }
    }

    /// A fresh handle to the note cell stored under `key`, if any; the
    /// cell gains one reference.
    pub fn get_note(
        &self,
        store: &mut ReactiveStore<Note>,
        key: ReactiveListKey,
    ) -> (r: Option<Reactive<Note>>)
        requires
            old(store).wf(),
            self.wf_in(old(store)@),
            forall|i: int|
                0 <= i < self.notes@.items.len() ==> old(store)@.cells[(
                #[trigger] self.notes@.items[i]).1.id()].ref_count < usize::MAX,
        ensures
            final(store).wf(),
            has_key(self.notes@.items, key) ==> {
                let h = self.notes@.items[key_index(self.notes@.items, key)].1;
                &&& r is Some
                &&& r.unwrap().id() == h.id()
                &&& final(store)@.cells == old(store)@.cells.insert(
                    h.id(),
                    CellModel {
                        ref_count: old(store)@.cells[h.id()].ref_count + 1,
                        ..old(store)@.cells[h.id()]
                    },
                )
            },
            !has_key(self.notes@.items, key) ==> r is None && final(store)@.cells == old(store)@.cells,
            final(store)@.sub_ctr == old(store)@.sub_ctr,
            final(store)@.log == old(store)@.log,
            final(store)@.delete_log == old(store)@.delete_log,
    {
        match self.notes.get_ref(key) {
            Some(handle) => {
                proof {
                    let idx = key_index(self.notes@.items, key);
                    assert(self.notes@.items[idx].1.id() == handle.id());
                }
                Some(handle.clone_handle(store))
            },
            None => None,
        }
    }
}

} // verus!
