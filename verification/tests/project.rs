use daw_core::Action;
use daw_core::Note;
use daw_core::Project;
use daw_core::Selection;

fn tempo_of(p: &Project) -> u32 {
    p.tempo.get_copy(&p.tempo_cells)
}

fn time_of(p: &Project) -> i64 {
    p.player_time.get_copy(&p.time_cells)
}

fn note_count(p: &Project, track: u32) -> usize {
    p.tracks.get(track).unwrap().note_count()
}

fn note_at(p: &Project, track: u32, key: usize) -> Option<Note> {
    p.tracks.get(track).unwrap().get_note_copy(&p.note_cells, key)
}

fn a_note(pitch: u32) -> Note {
    Note { note: pitch, velocity: 100, start: 0, length: 960 }
}

#[test]
fn a_new_project_has_defaults_and_one_midi_track() {
    let p = Project::new();
    assert_eq!(tempo_of(&p), 120);
    assert_eq!(time_of(&p), 0);
    assert_eq!(note_count(&p, 0), 0);
    assert_eq!(p.undo_depth(), 0);
    assert_eq!(p.redo_depth(), 0);
}

#[test]
fn change_tempo_and_undo_restores_it() {
    let mut p = Project::new();
    p.perform_action(Action::ChangeTempo(130));
    assert_eq!(tempo_of(&p), 130);
    assert_eq!(p.undo_depth(), 1);
    p.undo();
    assert_eq!(tempo_of(&p), 120);
    assert_eq!(p.undo_depth(), 0);
}

#[test]
fn one_undo_chains_through_auto_undoing_actions() {
    // The chain-through scenario: a tempo change followed by a cursor
    // move; one undo must revert both, because cursor moves undo
    // automatically, and the stack must be empty afterwards.
    let mut p = Project::new();
    p.perform_action(Action::ChangeTempo(130));
    p.perform_action(Action::MoveTimeCursor(5));
    assert_eq!(tempo_of(&p), 130);
    assert_eq!(time_of(&p), 5);
    assert_eq!(p.undo_depth(), 2);
    p.undo();
    assert_eq!(tempo_of(&p), 120);
    assert_eq!(time_of(&p), 0);
    assert_eq!(p.undo_depth(), 0);
}

#[test]
fn add_then_remove_with_the_issued_key_restores_the_list() {
    let mut p = Project::new();
    p.perform_action(Action::AddMidiNote { track_id: 0, note: a_note(60) });
    // The first key a track's clip issues is zero.
    assert_eq!(note_at(&p, 0, 0), Some(a_note(60)));
    assert_eq!(note_count(&p, 0), 1);
    p.perform_action(Action::RemoveMidiNote { track_id: 0, note_id: 0 });
    assert_eq!(note_count(&p, 0), 0);
    assert_eq!(note_at(&p, 0, 0), None);
}

#[test]
fn undo_then_redo_lands_back_on_the_edited_state() {
    let mut p = Project::new();
    p.perform_action(Action::ChangeTempo(99));
    p.undo();
    assert_eq!(tempo_of(&p), 120);
    assert_eq!(p.redo_depth(), 1);
    p.redo();
    assert_eq!(tempo_of(&p), 99);
    assert_eq!(p.redo_depth(), 0);
    assert_eq!(p.undo_depth(), 1);
}

#[test]
fn undo_then_redo_restores_an_added_note_value() {
    let mut p = Project::new();
    p.perform_action(Action::AddMidiNote { track_id: 0, note: a_note(72) });
    p.undo();
    assert_eq!(note_count(&p, 0), 0);
    p.redo();
    assert_eq!(note_count(&p, 0), 1);
    // The redo re-adds the note under a fresh key.
    assert_eq!(note_at(&p, 0, 1), Some(a_note(72)));
}

#[test]
fn performs_followed_by_equal_undos_restore_the_project() {
    let mut p = Project::new();
    p.perform_action(Action::ChangeTempo(140));
    p.perform_action(Action::AddMidiNote { track_id: 0, note: a_note(64) });
    p.perform_action(Action::ModifyMidiNote { track_id: 0, note_id: 0, new_note: a_note(65) });
    p.perform_action(Action::MoveTimeCursor(16));
    p.undo();
    p.undo();
    p.undo();
    p.undo();
    assert_eq!(tempo_of(&p), 120);
    assert_eq!(time_of(&p), 0);
    assert_eq!(note_count(&p, 0), 0);
    assert_eq!(p.undo_depth(), 0);
}

#[test]
fn modify_rewrites_the_note_and_undo_restores_it() {
    let mut p = Project::new();
    p.perform_action(Action::AddMidiNote { track_id: 0, note: a_note(60) });
    p.perform_action(Action::ModifyMidiNote { track_id: 0, note_id: 0, new_note: a_note(62) });
    assert_eq!(note_at(&p, 0, 0), Some(a_note(62)));
    p.undo();
    assert_eq!(note_at(&p, 0, 0), Some(a_note(60)));
}

#[test]
fn a_group_is_one_undoable_step() {
    let mut p = Project::new();
    p.perform_action(
        Action::Group(
            vec![
                Action::AddMidiNote { track_id: 0, note: a_note(60) },
                Action::AddMidiNote { track_id: 0, note: a_note(64) },
                Action::AddMidiNote { track_id: 0, note: a_note(67) },
            ],
        ),
    );
    assert_eq!(note_count(&p, 0), 3);
    assert_eq!(p.undo_depth(), 1);
    p.undo();
    assert_eq!(note_count(&p, 0), 0);
    assert_eq!(p.undo_depth(), 0);
}

#[test]
fn a_new_edit_clears_the_redo_stack() {
    let mut p = Project::new();
    p.perform_action(Action::ChangeTempo(130));
    p.undo();
    assert_eq!(p.redo_depth(), 1);
    p.perform_action(Action::ChangeTempo(90));
    assert_eq!(p.redo_depth(), 0);
}

#[test]
fn set_selection_round_trips_through_undo() {
    let mut p = Project::new();
    let mut chosen = std::collections::HashMap::new();
    let mut keys = std::collections::HashSet::new();
    keys.insert(0usize);
    chosen.insert(0u32, keys);
    p.perform_action(Action::SetSelection(Selection::MidiNotes(chosen)));
    assert!(p.selection.get(&p.selection_cells).is_note_selected(0, 0));
    p.undo();
    assert!(!p.selection.get(&p.selection_cells).is_note_selected(0, 0));
}

#[test]
fn undo_and_redo_on_empty_stacks_are_no_ops() {
    let mut p = Project::new();
    p.undo();
    p.redo();
    assert_eq!(tempo_of(&p), 120);
    assert_eq!(p.undo_depth(), 0);
    assert_eq!(p.redo_depth(), 0);
}

#[test]
fn selection_reports_unselected_notes() {
    let s = Selection::new();
    assert!(!s.is_note_selected(0, 0));
    let mut chosen = std::collections::HashMap::new();
    let mut keys = std::collections::HashSet::new();
    keys.insert(3usize);
    chosen.insert(1u32, keys);
    let s2 = Selection::MidiNotes(chosen);
    assert!(s2.is_note_selected(1, 3));
    assert!(!s2.is_note_selected(1, 4));
    assert!(!s2.is_note_selected(2, 3));
    let mut s3 = s2.clone();
    s3.clear();
    assert!(!s3.is_note_selected(1, 3));
}

#[test]
fn redo_chains_through_auto_undoing_actions() {
    let mut p = Project::new();
    p.perform_action(Action::ChangeTempo(130));
    p.perform_action(Action::MoveTimeCursor(5));
    p.undo();
    assert_eq!((tempo_of(&p), time_of(&p)), (120, 0));
    assert_eq!(p.redo_depth(), 2);
    p.redo();
    assert_eq!((tempo_of(&p), time_of(&p)), (130, 5));
    assert_eq!(p.redo_depth(), 0);
    assert_eq!(p.undo_depth(), 2);
}

#[test]
fn an_edit_flows_to_a_bound_element_as_a_dirty_flag() {
    // The full loop of the editor: an action mutates a reactive cell, the
    // cell's delivery reaches the bound element, and the element's shared
    // dirty flag tells the frame buffer to redraw.
    let mut p = Project::new();
    let mut ui = daw_core::Ui::new();
    let flag = ui.new_flag();
    let elem = ui.new_element(
        daw_core::ElementContent {
            position: daw_core::Position {
                x: daw_core::Coordinate::Fixed(0),
                y: daw_core::Coordinate::Fixed(0),
            },
            dimensions: daw_core::Dimensions {
                width: daw_core::Size::Fixed(10),
                height: daw_core::Size::Fixed(10),
            },
            style: daw_core::Style::plain(),
            text_node: None,
        },
        flag,
        0,
        Vec::new(),
    );
    ui.subscribe_mutation_to_reactive(elem, &mut p.tempo_cells, &p.tempo);
    ui.flags[flag] = false;
    p.perform_action(Action::ChangeTempo(88));
    let deliveries = p.tempo_cells.take_deliveries();
    assert_eq!(deliveries.len(), 1);
    assert_eq!(deliveries[0].value, 88);
    let hit = ui.dispatch_delivery(deliveries[0].subscriber);
    assert_eq!(hit, vec![elem]);
    assert!(ui.flags[flag]);
}

#[test]
fn performing_edits_notifies_the_touched_streams() {
    let mut p = Project::new();
    let tempo_sub = p.tempo.subscribe(&mut p.tempo_cells);
    let (push_sub, remove_sub) = match &mut p.tracks.tracks.get_mut(&0).unwrap().data {
        daw_core::TrackData::Midi(_, clip) => {
            (clip.notes.subscribe_to_push(), clip.notes.subscribe_to_remove())
        },
        _ => panic!("the first track is MIDI"),
    };

    p.perform_action(Action::ChangeTempo(130));
    let tempo_log = p.tempo_cells.take_deliveries();
    assert_eq!(tempo_log.len(), 1);
    assert_eq!(tempo_log[0].subscriber, tempo_sub);
    assert_eq!(tempo_log[0].value, 130);

    p.perform_action(Action::AddMidiNote { track_id: 0, note: a_note(60) });
    p.perform_action(Action::RemoveMidiNote { track_id: 0, note_id: 0 });
    match &mut p.tracks.tracks.get_mut(&0).unwrap().data {
        daw_core::TrackData::Midi(_, clip) => {
            let pushes = clip.notes.take_push_log();
            assert_eq!(pushes.len(), 1);
            assert_eq!(pushes[0].subscriber, push_sub);
            assert_eq!(pushes[0].key, 0);
            let removes = clip.notes.take_remove_log();
            assert_eq!(removes.len(), 1);
            assert_eq!(removes[0].subscriber, remove_sub);
            assert_eq!(removes[0].key, 0);
        },
        _ => panic!("the first track is MIDI"),
    }
}

#[test]
fn modifying_a_note_notifies_its_cell_subscribers() {
    let mut p = Project::new();
    p.perform_action(Action::AddMidiNote { track_id: 0, note: a_note(60) });
    let handle = p.tracks.get(0).unwrap().get_note_from_id(&mut p.note_cells, 0).unwrap();
    let sub = handle.subscribe(&mut p.note_cells);
    p.perform_action(Action::ModifyMidiNote { track_id: 0, note_id: 0, new_note: a_note(64) });
    let log = p.note_cells.take_deliveries();
    assert_eq!(log.len(), 1);
    assert_eq!(log[0].subscriber, sub);
    assert_eq!(log[0].value, a_note(64));
    handle.release(&mut p.note_cells);
}
