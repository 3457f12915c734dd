use daw_core::Action;
use daw_core::ActionType;
use daw_core::EditingContext;
use daw_core::Key;
use daw_core::KeyMode;
use daw_core::KeySignature;
use daw_core::Note;
use daw_core::PlayingState;
use daw_core::Project;
use daw_core::ShortcutsBuffer;
use daw_core::add_chord_action;
use daw_core::chord_degrees;
use daw_core::k;
use daw_core::key_from_symbol;
use daw_core::lengthened_note;
use daw_core::move_notes_vertically;
use daw_core::offset_notes_in_time;
use daw_core::quantized_note;
use daw_core::scaled_length_note;
use daw_core::shifted_note;
use daw_core::split_note;
use daw_core::transposed_note;

fn a_note(pitch: u32, start: i64, length: i64) -> Note {
    Note { note: pitch, velocity: 100, start, length }
}

#[test]
fn symbols_parse_to_keys() {
    assert_eq!(k("u"), Key { code: 'u' as u32, control: false, shift: false });
    assert_eq!(k("^r"), Key { code: 'r' as u32, control: true, shift: false });
    assert_eq!(k("A"), Key { code: 'a' as u32, control: false, shift: true });
    assert_eq!(k("!"), Key { code: '1' as u32, control: false, shift: true });
    assert_eq!(k("^="), Key { code: '=' as u32, control: true, shift: false });
    assert_eq!(k(" "), Key { code: ' ' as u32, control: false, shift: false });
    assert_eq!(key_from_symbol(""), None);
    assert_eq!(key_from_symbol("ab"), None);
    assert_eq!(key_from_symbol("abc"), None);
}

#[test]
fn the_shortcuts_buffer_accumulates_digits() {
    let mut buf = ShortcutsBuffer::new();
    assert_eq!(buf.get_amount(), 1);
    buf.push_amount_digit(4);
    buf.push_amount_digit(2);
    assert_eq!(buf.get_amount(), 42);
    buf.clear();
    assert_eq!(buf.get_amount(), 1);
}

#[test]
fn the_repeat_count_saturates_at_five_digits() {
    let mut buf = ShortcutsBuffer::new();
    for _ in 0..5 {
        buf.push_amount_digit(9);
    }
    assert_eq!(buf.get_amount(), 99999);
    buf.push_amount_digit(9);
    assert_eq!(buf.get_amount(), 99999);
}

#[test]
fn playing_state_toggles() {
    let mut state = PlayingState::Stopped;
    assert!(!state.is_playing());
    state.play_pause();
    assert_eq!(state, PlayingState::Playing);
    state.play_pause();
    assert_eq!(state, PlayingState::Stopped);
    let mut rec = PlayingState::Recording;
    assert!(rec.is_playing());
    rec.play_pause();
    assert_eq!(rec, PlayingState::Stopped);
}

#[test]
fn editing_context_keyboard_grab() {
    assert!(!EditingContext::PianoRoll.grabs_keyboard());
    assert!(EditingContext::InputField(3).grabs_keyboard());
    assert!(EditingContext::CommandPallet.grabs_keyboard());
}

#[test]
fn chromatic_transposition_moves_by_semitones() {
    let ks = KeySignature::new(0, KeyMode::Major);
    let n = transposed_note(&ks, a_note(60, 0, 960), 2, false);
    assert_eq!(n.note, 62);
    let kept = transposed_note(&ks, a_note(0, 0, 960), -1, false);
    assert_eq!(kept.note, 0);
}

#[test]
fn scale_transposition_walks_degrees() {
    let ks = KeySignature::new(0, KeyMode::Major);
    // E (third degree) one degree up is F.
    let n = transposed_note(&ks, a_note(4, 0, 960), 1, true);
    assert_eq!(n.note, 5);
    // A chromatic pitch falls back to semitones.
    let c = transposed_note(&ks, a_note(1, 0, 960), 1, true);
    assert_eq!(c.note, 2);
}

#[test]
fn time_shift_and_length_edits_reject_degenerate_values() {
    let n = a_note(60, 960, 960);
    assert_eq!(shifted_note(n, 480).start, 1440);
    assert_eq!(shifted_note(n, -960).start, 0);
    assert_eq!(lengthened_note(n, 40).length, 1000);
    // A length driven to zero or below keeps the old value.
    assert_eq!(lengthened_note(n, -960).length, 960);
    assert_eq!(lengthened_note(n, -2000).length, 960);
    assert_eq!(scaled_length_note(n, 2, 1).length, 1920);
    assert_eq!(scaled_length_note(n, 1, 2).length, 480);
    assert_eq!(scaled_length_note(n, 0, 1).length, 960);
}

#[test]
fn quantisation_rounds_to_the_nearest_beat() {
    assert_eq!(quantized_note(a_note(60, 100, 960)).start, 0);
    assert_eq!(quantized_note(a_note(60, 480, 960)).start, 960);
    assert_eq!(quantized_note(a_note(60, 1000, 960)).start, 960);
    assert_eq!(quantized_note(a_note(60, -480, 960)).start, -960);
    assert_eq!(quantized_note(a_note(60, -100, 960)).start, 0);
}

#[test]
fn splitting_a_note_replaces_it_with_equal_slices() {
    let actions = split_note(7, a_note(60, 960, 960), 0, 2);
    assert_eq!(actions.len(), 3);
    match &actions[0] {
        Action::RemoveMidiNote { track_id, note_id } => {
            assert_eq!((*track_id, *note_id), (0, 7));
        },
        _ => panic!("expected a removal first"),
    }
    match &actions[1] {
        Action::AddMidiNote { note, .. } => {
            assert_eq!((note.start, note.length), (960, 480));
        },
        _ => panic!("expected an addition"),
    }
    match &actions[2] {
        Action::AddMidiNote { note, .. } => {
            assert_eq!((note.start, note.length), (1440, 480));
        },
        _ => panic!("expected an addition"),
    }
}

#[test]
fn chord_degrees_follow_the_repeat_count() {
    assert_eq!(chord_degrees(None), vec![1, 3, 5]);
    assert_eq!(chord_degrees(Some(5)), vec![1, 5]);
    assert_eq!(chord_degrees(Some(7)), vec![1, 3, 5, 7]);
    assert_eq!(chord_degrees(Some(2)), vec![1, 3, 5]);
}

#[test]
fn a_chord_enters_as_one_grouped_edit() {
    let mut p = Project::new();
    let notes = vec![a_note(60, 0, 960), a_note(64, 0, 960), a_note(67, 0, 960)];
    let action = add_chord_action(&notes, 0);
    p.perform_action(action);
    assert_eq!(p.tracks.get(0).unwrap().note_count(), 3);
    assert_eq!(p.undo_depth(), 1);
    p.undo();
    assert_eq!(p.tracks.get(0).unwrap().note_count(), 0);
}

#[test]
fn vertical_moves_build_one_modify_per_note() {
    let ks = KeySignature::new(0, KeyMode::Major);
    let notes = vec![(0usize, a_note(60, 0, 960)), (1usize, a_note(64, 0, 960))];
    let actions = move_notes_vertically(&ks, &notes, 0, 12, false);
    assert_eq!(actions.len(), 2);
    match &actions[0] {
        Action::ModifyMidiNote { note_id, new_note, .. } => {
            assert_eq!((*note_id, new_note.note), (0, 72));
        },
        _ => panic!("expected a modification"),
    }
    let shifts = offset_notes_in_time(&notes, 0, 480);
    match &shifts[1] {
        Action::ModifyMidiNote { note_id, new_note, .. } => {
            assert_eq!((*note_id, new_note.start), (1, 480));
        },
        _ => panic!("expected a modification"),
    }
}

#[test]
fn inverse_bookkeeping_is_exposed_for_drivers() {
    let mut p = Project::new();
    p.perform_action(Action::ChangeTempo(100));
    p.handle_inverse_action(Action::ChangeTempo(120), ActionType::Normal);
    assert_eq!(p.undo_depth(), 2);
}
