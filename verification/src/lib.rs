//! Reactive state core for a digital-audio-workstation editor.
//!
//! The crate provides the state-and-binding machinery that a piano-roll
//! editor is built on: reference-counted observable value cells
//! ([`reactive::Reactive`]) and keyed observable collections
//! ([`reactive_list::ReactiveList`]), the track/note data model, a
//! retained-mode element tree with conservative dirty-flag invalidation
//! ([`element`]), and the undo/redo action engine ([`project::Project`]).
//!
//! Shared mutable state is realised with explicit arena stores and integer
//! handles rather than interior mutability: every observable cell lives in a
//! store that is threaded through the operations on it, and subscriber
//! callbacks are modelled as ordered notification records that a driver
//! drains and dispatches.

mod element;
mod laws;
mod midi;
mod music;
mod note_ops;
mod project;
mod reactive;
mod reactive_list;
mod selection;
mod shortcuts;
mod style;
mod track;

pub use reactive::CellModel;
pub use reactive::Delivery;
pub use reactive::Reactive;
pub use reactive::ReactiveStore;
pub use reactive::ReactiveSubscriptionId;
pub use reactive::StoreModel;
pub use reactive_list::ListModel;
pub use reactive_list::PushRecord;
pub use reactive_list::ReactiveList;
pub use reactive_list::ReactiveListKey;
pub use reactive_list::RemoveRecord;
pub use reactive_list::has_key;
pub use reactive_list::key_index;

pub use music::Degree;
pub use music::KeyMode;
pub use music::KeySignature;
pub use music::TimeSignature;
pub use music::is_black_key;
pub use music::note_name;
pub use element::Binding;
pub use element::CreateElementRequest;
pub use element::NodeModel;
pub use element::RequestModel;
pub use element::node_model;
pub use element::nodes_model;
pub use element::spec_fulfil;
pub use element::spec_fulfil_one;
pub use element::spec_request_ok;
pub use element::ElementCreationQueue;
pub use element::ComputedBoundingBox;
pub use element::ComputedDimensions;
pub use element::ComputedPosition;
pub use element::Coordinate;
pub use element::Dimensions;
pub use element::DrawCommand;
pub use element::ElementContent;
pub use element::ElementNode;
pub use element::Position;
pub use element::Size;
pub use element::TextNode;
pub use element::Ui;

pub use midi::MidiClip;
pub use midi::MidiEvent;
pub use midi::MidiEventData;
pub use midi::MidiInputEvent;
pub use midi::Note;
pub use midi::NoteEvent;
pub use midi::TICKS_PER_BEAT;
pub use midi::Time;
pub use selection::Selection;
pub use selection::SelectionView;
pub use style::Colour;
pub use style::ColourPalette;
pub use style::Style;
pub use style::c;
pub use track::Instrument;
pub use track::Track;
pub use track::TrackData;
pub use track::TrackGroup;
pub use track::TrackId;
pub use track::TrackType;
pub use project::Action;
pub use project::ActionModel;
pub use project::ActionType;
pub use project::Project;
pub use project::ProjectMeta;
pub use project::ProjectModel;
pub use project::TrackModel;
pub use project::action_ok;
pub use project::auto_undoes;
pub use project::do_action;
pub use project::do_subs;
pub use project::handle_inverse;
pub use project::action_notified;
pub use project::same_stores;
pub use project::spec_perform;
pub use project::spec_redo;
pub use project::spec_redo_ok;
pub use project::spec_undo;
pub use project::spec_undo_ok;
pub use project::simple_ok;
pub use project::subs_ok;
pub use project::apply_simple;
pub use laws::Observation;
pub use laws::core_eq;
pub use laws::lemma_core_eq_observe;
pub use laws::lemma_do_action_inv;
pub use laws::lemma_undo_step_restores;
pub use laws::note_values;
pub use laws::observe;
pub use laws::lemma_perform_then_undo_restores;
pub use laws::lemma_undo_then_redo_roundtrip;
pub use laws::lemma_undo_ok_after_perform;
pub use laws::lemma_undo_ok_after_add_group;
pub use laws::adds_to_track;
pub use laws::lemma_add_then_remove_restores;
pub use laws::perform_all;
pub use laws::acts_ok;
pub use laws::plain_actions;
pub use laws::replay_room;
pub use laws::undo_calls;
pub use laws::undo_calls_ok;
pub use reactive_list::lemma_push_notifies_subscriber;
pub use reactive_list::notified_with_key;
pub use reactive::notified;
pub use shortcuts::EditingContext;
pub use shortcuts::Key;
pub use shortcuts::KeyCode;
pub use shortcuts::PlayingState;
pub use shortcuts::ShortcutsBuffer;
pub use shortcuts::k;
pub use shortcuts::key_from_symbol;
pub use shortcuts::spec_key_from_symbol;
pub use note_ops::add_chord_action;
pub use note_ops::chord_degrees;
pub use note_ops::lengthened_note;
pub use note_ops::move_notes_vertically;
pub use note_ops::offset_notes_in_time;
pub use note_ops::offset_notes_length;
pub use note_ops::quantized_note;
pub use note_ops::scaled_length_note;
pub use note_ops::shifted_note;
pub use note_ops::split_note;
pub use note_ops::transposed_note;
