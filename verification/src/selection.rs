//! What the editor currently has selected.
//!
//! Either nothing, or a set of note keys per track. No invariant ties a
//! selected note key to the continued existence of that note in its
//! track's list: callers clear or update the selection when they remove
//! notes.

use std::collections::HashMap;
use std::collections::HashSet;

use vstd::prelude::*;

use crate::reactive_list::ReactiveListKey;
use crate::track::TrackId;

verus! {

broadcast use vstd::std_specs::hash::group_hash_axioms;

/// Current selection state.
#[derive(Clone)]
pub enum Selection {
    /// Nothing is selected.
    Empty,
    /// For each listed track, the keys of its selected notes.
    MidiNotes(HashMap<TrackId, HashSet<ReactiveListKey>>),
}

/// Mathematical state of a [`Selection`].
pub ghost enum SelectionView {
    Empty,
    MidiNotes(Map<TrackId, Set<ReactiveListKey>>),
}

impl View for Selection {
    type V = SelectionView;

    closed spec fn view(&self) -> SelectionView {
        match self {
            Selection::Empty => SelectionView::Empty,
            Selection::MidiNotes(m) => SelectionView::MidiNotes(
                Map::new(|t: TrackId| m@.contains_key(t), |t: TrackId| m@[t]@),
            ),
        }
    }
}

impl SelectionView {
    /// Whether the note `note_id` of track `track_id` is selected.
    pub open spec fn spec_is_note_selected(
        self,
        track_id: TrackId,
        note_id: ReactiveListKey,
    ) -> bool {
        match self {
            SelectionView::Empty => false,
            SelectionView::MidiNotes(m) => m.contains_key(track_id) && m[track_id].contains(
                note_id,
            ),
        }
    }
}

impl Selection {
    /// An empty selection.
    pub fn new() -> (r: Self)
        ensures
            r@ == SelectionView::Empty,
    {
        Selection::Empty
    }

    pub fn is_note_selected(&self, track_id: TrackId, note_id: ReactiveListKey) -> (r: bool)
        ensures
            r == self@.spec_is_note_selected(track_id, note_id),
    {
        match self {
            Selection::MidiNotes(track_map) => match track_map.get(&track_id) {
                Some(track) => track.contains(&note_id),
                _ => false,
            },
            _ => false,
        }
    }

    /// Empties the selection.
    pub fn clear(&mut self)
        ensures
            final(self)@ == SelectionView::Empty,
    {
        *self = Selection::Empty;
    }
}

} // verus!
