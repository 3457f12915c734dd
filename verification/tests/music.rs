use daw_core::Degree;
use daw_core::KeyMode;
use daw_core::KeySignature;
use daw_core::TimeSignature;
use daw_core::is_black_key;
use daw_core::note_name;

#[test]
fn from_degree_root_of_c_major_is_zero() {
    let ks = KeySignature::new(0, KeyMode::Major);
    assert_eq!(ks.from_degree(1, 0), 0);
}

#[test]
fn from_degree_wraps_into_next_octave() {
    let ks = KeySignature::new(0, KeyMode::Major);
    assert_eq!(ks.from_degree(8, 0), 12);
}

#[test]
fn from_degree_major_scale_table() {
    let ks = KeySignature::new(0, KeyMode::Major);
    assert_eq!(ks.from_degree(2, 0), 2);
    assert_eq!(ks.from_degree(3, 0), 4);
    assert_eq!(ks.from_degree(4, 0), 5);
    assert_eq!(ks.from_degree(5, 0), 7);
    assert_eq!(ks.from_degree(6, 0), 9);
    assert_eq!(ks.from_degree(7, 0), 11);
}

#[test]
fn from_degree_underflow_borrows_an_octave() {
    let ks = KeySignature::new(0, KeyMode::Major);
    assert_eq!(ks.from_degree(0, 1), 11);
}

#[test]
fn from_degree_minor_mode_shifts_the_lookup() {
    let ks = KeySignature::new(0, KeyMode::Minor);
    assert_eq!(ks.from_degree(3, 1), 12);
}

#[test]
fn from_degree_respects_root_and_octave() {
    let ks = KeySignature::new(2, KeyMode::Major);
    assert_eq!(ks.from_degree(1, 2), 26);
}

#[test]
fn to_degree_of_a_scale_tone() {
    let ks = KeySignature::new(0, KeyMode::Major);
    assert_eq!(ks.to_degree(4), Some(Degree { degree: 3, octave: 0 }));
}

#[test]
fn to_degree_of_a_chromatic_tone_is_none() {
    let ks = KeySignature::new(0, KeyMode::Major);
    assert_eq!(ks.to_degree(1), None);
}

#[test]
fn to_degree_counts_octaves() {
    let ks = KeySignature::new(0, KeyMode::Major);
    assert_eq!(ks.to_degree(31), Some(Degree { degree: 5, octave: 2 }));
}

#[test]
fn common_time_has_four_beats_per_measure() {
    let ts = TimeSignature::common();
    assert_eq!(ts.beats_per_measure(), 4);
}

#[test]
fn note_names_follow_the_pitch_class_table() {
    assert_eq!(note_name(0, false), "C");
    assert_eq!(note_name(1, false), "C#");
    assert_eq!(note_name(61, false), "C#");
    assert_eq!(note_name(9, false), "A");
}

#[test]
fn note_names_with_octave() {
    assert_eq!(note_name(0, true), "C0");
    assert_eq!(note_name(61, true), "C#5");
    assert_eq!(note_name(127, true), "G10");
}

#[test]
fn key_signature_name_spells_root_and_mode() {
    assert_eq!(KeySignature::new(0, KeyMode::Major).name(), "C Major");
    assert_eq!(KeySignature::new(9, KeyMode::Minor).name(), "A Minor");
}

#[test]
fn black_keys_of_the_octave() {
    let blacks: Vec<i32> = (0..12).filter(|n| is_black_key(*n)).collect();
    assert_eq!(blacks, vec![1, 3, 6, 8, 10]);
    assert!(is_black_key(13));
    assert!(!is_black_key(12));
}
