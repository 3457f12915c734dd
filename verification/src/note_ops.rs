//! Note-editing operations behind the keyboard shortcuts.
//!
//! Each operation computes, from the affected notes, the actions that the
//! undo engine then performs: transposition (chromatic or along the
//! scale), time shifts, length changes, quantisation, splitting, and
//! chord entry. A degenerate edit — a length driven to zero or below, or
//! a value leaving its range — keeps the previous value instead of
//! corrupting the note.

use vstd::prelude::*;

use crate::midi::Note;
use crate::midi::TICKS_PER_BEAT;
use crate::midi::Time;
use crate::music::KeySignature;
use crate::project::Action;
use crate::project::ActionModel;
use crate::reactive_list::ReactiveListKey;
use crate::track::TrackId;

verus! {

/// The chromatically transposed pitch; out-of-range results keep the old
/// pitch.
pub open spec fn spec_chromatic_pitch(pitch: u32, offset: i32) -> u32 {
    let v = pitch + offset;
    if 0 <= v <= u32::MAX {
        v as u32
    } else {
        pitch
    }
}

/// The pitch transposed by scale degrees of `ks` when the pitch is a
/// scale tone, chromatically otherwise; out-of-range results keep the
/// old pitch.
pub open spec fn spec_transposed_pitch(
    ks: KeySignature,
    pitch: u32,
    offset: i32,
    by_scale_degree: bool,
) -> u32 {
    if by_scale_degree && pitch <= 0x7fff_ffff {
        match ks.spec_to_degree(pitch as int) {
            Some(d) => {
                let v = ks.spec_from_degree(d.degree + offset, d.octave as int);
                if 0 <= v <= u32::MAX {
                    v as u32
                } else {
                    pitch
                }
            },
            None => spec_chromatic_pitch(pitch, offset),
        }
    } else {
        spec_chromatic_pitch(pitch, offset)
    }
}

/// The note with its pitch transposed; see [`spec_transposed_pitch`].
pub fn transposed_note(
    ks: &KeySignature,
    note: Note,
    offset: i32,
    by_scale_degree: bool,
) -> (r: Note)
    ensures
        r == (Note {
            note: spec_transposed_pitch(*ks, note.note, offset, by_scale_degree),
            ..note
        }),
{
    let chromatic: u32 = {
        let v: i64 = note.note as i64 + offset as i64;
        if v >= 0 && v <= u32::MAX as i64 {
            v as u32
        } else {
            note.note
        }
    };
    let pitch: u32 = if by_scale_degree && note.note <= 0x7fff_ffff {
        match ks.to_degree(note.note as i32) {
            Some(d) => {
                let shifted: i64 = d.degree as i64 + offset as i64;
                match ks_from_degree_checked(ks, shifted, d.octave) {
                    Some(p) => p,
                    None => note.note,
                }
            },
            None => chromatic,
        }
    } else {
        chromatic
    };
    Note { note: pitch, ..note }
}

/// The pitch of a shifted degree, when it lies in pitch range.
fn ks_from_degree_checked(ks: &KeySignature, degree: i64, octave: i32) -> (r: Option<u32>)
    requires
        i32::MIN as i64 + i32::MIN as i64 <= degree <= i32::MAX as i64 + i32::MAX as i64,
    ensures
        0 <= ks.spec_from_degree(degree as int, octave as int) <= u32::MAX ==> r == Some(
            (ks.spec_from_degree(degree as int, octave as int)) as u32,
        ),
        !(0 <= ks.spec_from_degree(degree as int, octave as int) <= u32::MAX) ==> r is None,
{
    let shift: i64 = match ks.mode {
        crate::music::KeyMode::Major => 0,
        crate::music::KeyMode::Minor => 2,
    };
    let d0: i64 = degree as i64 - shift - 1;
    let mut octave_offset: i64 = 0;
    let mut d: i64 = d0;
    while d < 0
        invariant
            7 * octave_offset + d == d0,
            d >= 2 * (i32::MIN as int) - 3,
            octave_offset <= 0,
        decreases 7 - d,
    {
        d = d + 7;
        octave_offset = octave_offset - 1;
    }
    octave_offset = octave_offset + d / 7;
    d = d % 7;
    proof {
        vstd::arithmetic::div_mod::lemma_fundamental_div_mod_converse(
            d0 as int,
            7,
            octave_offset as int,
            d as int,
        );
    }
    let offset: i64 = match d {
        0 => 0,
        1 => 2,
        2 => 4,
        3 => 5,
        4 => 7,
        5 => 9,
        _ => 11,
    };
    let value: i64 = offset + 12 * octave_offset + ks.root as i64 + 12 * octave as i64;
    if value >= 0 && value <= u32::MAX as i64 {
        Some(value as u32)
    } else {
        None
    }
}

/// The note shifted in time; a shift that leaves the tick range keeps
/// the old start.
pub open spec fn spec_shifted_note(note: Note, offset: Time) -> Note {
    let v = note.start + offset;
    if i64::MIN <= v <= i64::MAX {
        Note { start: v as Time, ..note }
    } else {
        note
    }
}

pub fn shifted_note(note: Note, offset: Time) -> (r: Note)
    ensures
        r == spec_shifted_note(note, offset),
{
    match note.start.checked_add(offset) {
        Some(v) => Note { start: v, ..note },
        None => note,
    }
}

/// The note with its length changed by `dt`; a result at or below zero,
/// or out of range, keeps the old length.
pub open spec fn spec_lengthened_note(note: Note, dt: Time) -> Note {
    let v = note.length + dt;
    if i64::MIN <= v <= i64::MAX && v > 0 {
        Note { length: v as Time, ..note }
    } else {
        note
    }
}

pub fn lengthened_note(note: Note, dt: Time) -> (r: Note)
    ensures
        r == spec_lengthened_note(note, dt),
{
    match note.length.checked_add(dt) {
        Some(v) => {
            if v > 0 {
                Note { length: v, ..note }
            } else {
                note
            }
        },
        None => note,
    }
}

/// The note with its length scaled by `num / den`; a result at or below
/// zero, or out of range, keeps the old length.
pub open spec fn spec_scaled_length_note(note: Note, num: i64, den: i64) -> Note
    recommends
        den > 0,
{
    let v = crate::music::trunc_div(note.length * num, den as int);
    if i64::MIN <= v <= i64::MAX && v > 0 {
        Note { length: v as Time, ..note }
    } else {
        note
    }
}

pub fn scaled_length_note(note: Note, num: i64, den: i64) -> (r: Note)
    requires
        den > 0,
    ensures
        r == spec_scaled_length_note(note, num, den),
{
    proof {
        assert((note.length as int) * (num as int)
            <= 0x4000_0000_0000_0000_0000_0000_0000_0000) by (nonlinear_arith)
            requires
                note.length <= i64::MAX,
                note.length >= i64::MIN,
                num <= i64::MAX,
                num >= i64::MIN,
        {
        }
        assert((note.length as int) * (num as int)
            >= -0x4000_0000_0000_0000_0000_0000_0000_0000) by (nonlinear_arith)
            requires
                note.length <= i64::MAX,
                note.length >= i64::MIN,
                num <= i64::MAX,
                num >= i64::MIN,
        {
        }
    }
    let wide: i128 = note.length as i128 * num as i128;
    let q: i128 = if wide >= 0 {
        wide / den as i128
    } else {
        -((-wide) / den as i128)
    };
    proof {
        assert(q == crate::music::trunc_div(wide as int, den as int));
    }
    if q > 0 && q <= i64::MAX as i128 {
        Note { length: q as i64, ..note }
    } else {
        note
    }
}

/// The start tick rounded to the nearest beat, halves rounding away from
/// zero; a result out of range keeps the old start.
pub open spec fn spec_quantized_note(note: Note) -> Note {
    let t = note.start as int;
    let q = crate::music::trunc_div(t, TICKS_PER_BEAT as int);
    let r = crate::music::trunc_mod(t, TICKS_PER_BEAT as int);
    let rounded = if r * 2 >= TICKS_PER_BEAT {
        (q + 1) * TICKS_PER_BEAT
    } else if r * 2 <= -TICKS_PER_BEAT {
        (q - 1) * TICKS_PER_BEAT
    } else {
        q * TICKS_PER_BEAT
    };
    if i64::MIN <= rounded <= i64::MAX {
        Note { start: rounded as Time, ..note }
    } else {
        note
    }
}

pub fn quantized_note(note: Note) -> (r: Note)
    ensures
        r == spec_quantized_note(note),
{
    let t: i128 = note.start as i128;
    let beat: i128 = TICKS_PER_BEAT as i128;
    let q: i128 = if t >= 0 {
        t / beat
    } else {
        -((-t) / beat)
    };
    let rem: i128 = if t >= 0 {
        t % beat
    } else {
        -((-t) % beat)
    };
    proof {
        assert(q == crate::music::trunc_div(t as int, TICKS_PER_BEAT as int));
        assert(rem == crate::music::trunc_mod(t as int, TICKS_PER_BEAT as int));
    }
    let rounded: i128 = if rem * 2 >= beat {
        (q + 1) * beat
    } else if rem * 2 <= -beat {
        (q - 1) * beat
    } else {
        q * beat
    };
    if rounded >= i64::MIN as i128 && rounded <= i64::MAX as i128 {
        Note { start: rounded as i64, ..note }
    } else {
        note
    }
}

/// One modify action per listed note, in order, each rewriting the note
/// through `to_new`.
pub open spec fn spec_modify_actions(
    notes: Seq<(ReactiveListKey, Note)>,
    track_id: TrackId,
    to_new: spec_fn(Note) -> Note,
) -> Seq<ActionModel> {
    notes.map_values(
        |e: (ReactiveListKey, Note)| ActionModel::ModifyMidiNote {
            track_id,
            note_id: e.0,
            new_note: to_new(e.1),
        },
    )
}

/// Modify actions transposing each listed note; see [`transposed_note`].
pub fn move_notes_vertically(
    ks: &KeySignature,
    notes: &Vec<(ReactiveListKey, Note)>,
    track_id: TrackId,
    offset: i32,
    by_scale_degree: bool,
) -> (r: Vec<Action>)
    ensures
        r@.len() == notes@.len(),
        forall|i: int|
            0 <= i < r@.len() ==> (#[trigger] r@[i])@ == (ActionModel::ModifyMidiNote {
                track_id,
                note_id: notes@[i].0,
                new_note: Note {
                    note: spec_transposed_pitch(*ks, notes@[i].1.note, offset, by_scale_degree),
                    ..notes@[i].1
                },
            }),
{
    let mut r: Vec<Action> = Vec::new();
    let n = notes.len();
    for i in 0..n
        invariant
            n == notes@.len(),
            r@.len() == i,
            forall|j: int|
                0 <= j < i ==> (#[trigger] r@[j])@ == (ActionModel::ModifyMidiNote {
                    track_id,
                    note_id: notes@[j].0,
                    new_note: Note {
                        note: spec_transposed_pitch(
                            *ks,
                            notes@[j].1.note,
                            offset,
                            by_scale_degree,
                        ),
                        ..notes@[j].1
                    },
                }),
    {
        let (key, note) = notes[i];
        let new_note = transposed_note(ks, note, offset, by_scale_degree);
        r.push(Action::ModifyMidiNote { track_id, note_id: key, new_note });
    }
    r
}

/// Modify actions shifting each listed note in time.
pub fn offset_notes_in_time(
    notes: &Vec<(ReactiveListKey, Note)>,
    track_id: TrackId,
    offset: Time,
) -> (r: Vec<Action>)
    ensures
        r@.len() == notes@.len(),
        forall|i: int|
            0 <= i < r@.len() ==> (#[trigger] r@[i])@ == (ActionModel::ModifyMidiNote {
                track_id,
                note_id: notes@[i].0,
                new_note: spec_shifted_note(notes@[i].1, offset),
            }),
{
    let mut r: Vec<Action> = Vec::new();
    let n = notes.len();
    for i in 0..n
        invariant
            n == notes@.len(),
            r@.len() == i,
            forall|j: int|
                0 <= j < i ==> (#[trigger] r@[j])@ == (ActionModel::ModifyMidiNote {
                    track_id,
                    note_id: notes@[j].0,
                    new_note: spec_shifted_note(notes@[j].1, offset),
                }),
    {
        let (key, note) = notes[i];
        let new_note = shifted_note(note, offset);
        r.push(Action::ModifyMidiNote { track_id, note_id: key, new_note });
    }
    r
}

/// Modify actions changing each listed note's length by `dt`.
pub fn offset_notes_length(
    notes: &Vec<(ReactiveListKey, Note)>,
    track_id: TrackId,
    dt: Time,
) -> (r: Vec<Action>)
    ensures
        r@.len() == notes@.len(),
        forall|i: int|
            0 <= i < r@.len() ==> (#[trigger] r@[i])@ == (ActionModel::ModifyMidiNote {
                track_id,
                note_id: notes@[i].0,
                new_note: spec_lengthened_note(notes@[i].1, dt),
            }),
{
    let mut r: Vec<Action> = Vec::new();
    let n = notes.len();
    for i in 0..n
        invariant
            n == notes@.len(),
            r@.len() == i,
            forall|j: int|
                0 <= j < i ==> (#[trigger] r@[j])@ == (ActionModel::ModifyMidiNote {
                    track_id,
                    note_id: notes@[j].0,
                    new_note: spec_lengthened_note(notes@[j].1, dt),
                }),
    {
        let (key, note) = notes[i];
        let new_note = lengthened_note(note, dt);
        r.push(Action::ModifyMidiNote { track_id, note_id: key, new_note });
    }
    r
}

/// Remove the note, then add `times` slices of equal length covering its
/// duration in order; slices keep pitch and velocity.
pub fn split_note(
    note_id: ReactiveListKey,
    note: Note,
    track_id: TrackId,
    times: i64,
) -> (r: Vec<Action>)
    requires
        times > 0,
        note.length >= 0,
        note.start + note.length <= i64::MAX,
    ensures
        r@.len() == times + 1,
        r@[0]@ == (ActionModel::RemoveMidiNote { track_id, note_id }),
        forall|i: int|
            1 <= i < r@.len() ==> (#[trigger] r@[i])@ == (ActionModel::AddMidiNote {
                track_id,
                note: Note {
                    start: spec_slice_start(note, times, i - 1) as i64,
                    length: (note.length as int / times as int) as i64,
                    ..note
                },
            }),
{
    let length: i64 = note.length / times;
    let mut r: Vec<Action> = Vec::new();
    r.push(Action::RemoveMidiNote { track_id, note_id });
    let mut i: i64 = 0;
    while i < times
        invariant
            0 <= i <= times,
            times > 0,
            note.length >= 0,
            note.start + note.length <= i64::MAX,
            length == note.length as int / times as int,
            r@.len() == i + 1,
            r@[0]@ == (ActionModel::RemoveMidiNote { track_id, note_id }),
            forall|j: int|
                1 <= j < r@.len() ==> (#[trigger] r@[j])@ == (ActionModel::AddMidiNote {
                    track_id,
                    note: Note {
                        start: spec_slice_start(note, times, j - 1) as i64,
                        length: length as i64,
                        ..note
                    },
                }),
        decreases times - i,
    {
        proof {
            assert(0 <= length <= note.length) by (nonlinear_arith)
                requires
                    times > 0,
                    note.length >= 0,
                    length == note.length as int / times as int,
            {
            }
            lemma_slice_start_bounds(note, times, i as int);
        }
        let offset: i64 = slice_offset(i, length, note.length);
        r.push(
            Action::AddMidiNote {
                track_id,
                note: Note { start: note.start + offset, length, ..note },
            },
        );
        proof {
            assert(note.start + offset == spec_slice_start(note, times, i as int));
        }
        i = i + 1;
    }
    r
}

/// Where slice `i` of a note split `times` ways begins.
pub open spec fn spec_slice_start(note: Note, times: i64, i: int) -> int
    recommends
        times > 0,
        note.length >= 0,
{
    note.start + i * (note.length as int / times as int)
}

proof fn lemma_slice_start_bounds(note: Note, times: i64, i: int)
    requires
        times > 0,
        note.length >= 0,
        note.start + note.length <= i64::MAX,
        0 <= i < times,
    ensures
        0 <= i * (note.length as int / times as int) <= note.length,
        i64::MIN <= spec_slice_start(note, times, i) <= i64::MAX,
{
    let slice = note.length as int / times as int;
    assert(0 <= slice && slice * times <= note.length && 0 <= i * slice <= slice * times)
        by (nonlinear_arith)
        requires
            times > 0,
            note.length >= 0,
            slice == note.length as int / times as int,
            0 <= i < times,
    {
    }
}

fn slice_offset(i: i64, length: i64, total: i64) -> (r: i64)
    requires
        0 <= i,
        0 <= length,
        0 <= i * length <= total,
    ensures
        r == i * length,
{
    proof {
        assert(i * length >= 0);
    }
    i * length
}

/// One add action per chord note, as one grouped edit.
pub fn add_chord_action(notes: &Vec<Note>, track_id: TrackId) -> (r: Action)
    ensures
        r@ is Group,
        r@->Group_0.len() == notes@.len(),
        forall|i: int|
            0 <= i < notes@.len() ==> #[trigger] r@->Group_0[i] == (ActionModel::AddMidiNote {
                track_id,
                note: notes@[i],
            }),
{
    let mut actions: Vec<Action> = Vec::new();
    let n = notes.len();
    for i in 0..n
        invariant
            n == notes@.len(),
            actions@.len() == i,
            forall|j: int|
                0 <= j < i ==> (#[trigger] actions@[j])@ == (ActionModel::AddMidiNote {
                    track_id,
                    note: notes@[j],
                }),
    {
        actions.push(Action::AddMidiNote { track_id, note: notes[i] });
    }
    proof {
        crate::project::lemma_views_of(actions@);
    }
    Action::Group(actions)
}

/// The scale degrees of the chord a typed repeat count selects: a plain
/// triad by default, root and fifth for a count of five, and a stack of
/// thirds for any other odd count.
pub fn chord_degrees(num_modifier: Option<i32>) -> (r: Vec<i32>)
    ensures
        match num_modifier {
            Some(n) => {
                if n == 5 {
                    r@ =~= seq![1i32, 5i32]
                } else if 1 <= n <= 21 && (n - 1) % 2 == 0 {
                    r@.len() == (n + 1) as int / 2 && forall|i: int|
                        0 <= i < r@.len() ==> #[trigger] r@[i] == 2 * i + 1
                } else {
                    r@ =~= seq![1i32, 3i32, 5i32]
                }
            },
            None => r@ =~= seq![1i32, 3i32, 5i32],
        },
{
    match num_modifier {
        Some(n) => {
            if n == 5 {
                let mut r: Vec<i32> = Vec::new();
                r.push(1);
                r.push(5);
                r
            } else if 1 <= n && n <= 21 && (n - 1) % 2 == 0 {
                let mut r: Vec<i32> = Vec::new();
                let mut d: i32 = 1;
                while d <= n
                    invariant
                        1 <= d <= n + 2,
                        d % 2 == 1,
                        n <= 21,
                        r@.len() * 2 == d - 1,
                        forall|i: int| 0 <= i < r@.len() ==> #[trigger] r@[i] == 2 * i + 1,
                    decreases n + 2 - d,
                {
                    r.push(d);
                    d = d + 2;
                }
                r
            } else {
                let mut r: Vec<i32> = Vec::new();
                r.push(1);
                r.push(3);
                r.push(5);
                r
            }
        },
        None => {
            let mut r: Vec<i32> = Vec::new();
            r.push(1);
            r.push(3);
            r.push(5);
            r
        },
    }
}

} // verus!
