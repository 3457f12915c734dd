use daw_core::MidiEvent;
use daw_core::MidiEventData;
use daw_core::Note;
use daw_core::NoteEvent;

#[test]
fn a_note_becomes_a_note_on_and_a_note_off() {
    let note = Note { note: 61, velocity: 100, start: 960, length: 480 };
    let events = note.to_midi_events();
    assert_eq!(events.len(), 2);
    assert_eq!(events[0].time, 960);
    assert_eq!(
        events[0].data,
        MidiEventData::NoteOn { note: NoteEvent { note: 61, velocity: 100 } },
    );
    assert_eq!(events[1].time, 1440);
    assert_eq!(
        events[1].data,
        MidiEventData::NoteOff { note: NoteEvent { note: 61, velocity: 0 } },
    );
}

#[test]
fn status_bytes_follow_the_event_kind() {
    let on = MidiEvent {
        time: 0,
        data: MidiEventData::NoteOn { note: NoteEvent { note: 60, velocity: 90 } },
    };
    let off = MidiEvent {
        time: 0,
        data: MidiEventData::NoteOff { note: NoteEvent { note: 60, velocity: 0 } },
    };
    assert_eq!(on.status_byte(), 0x90);
    assert_eq!(off.status_byte(), 0x80);
    assert_eq!(on.note(), Some(NoteEvent { note: 60, velocity: 90 }));
}
