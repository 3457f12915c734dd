//! The undo engine's algebraic laws.
//!
//! The proofs here are stated over [`ProjectModel`], the mathematical
//! state that every executable `Project` method is proved to follow, so
//! they carry over to the executable engine.
//!
//! Scope: the restoration laws are proved for plain actions — no groups
//! and, for the full round trip, no removals. Both exclusions are forced
//! by the engine's own design, not by the proofs: a group's inverse
//! replays the member inverses in the order they were recorded rather
//! than reversed, so a group whose members touch the same state, such as
//! two tempo changes, does not restore it; and undoing a removal re-adds
//! the note under a fresh key, so an older stack entry that names the
//! removed key can no longer be replayed.
//!
//! Beside the restoration laws stand validity lemmas that let a verified
//! driver discharge `undo`'s precondition right after an edit: for any
//! plain action, and for a grouped chord entry — a group of additions to
//! one track.

use vstd::prelude::*;
use vstd::multiset::Multiset;

use crate::midi::Note;
use crate::midi::Time;
use crate::music::KeySignature;
use crate::music::TimeSignature;
use crate::project::ActionModel;
use crate::project::ActionType;
use crate::project::ProjectModel;
use crate::project::TrackModel;
use crate::project::apply_simple;
use crate::project::auto_undoes;
use crate::project::do_action;
use crate::project::simple_ok;
use crate::project::spec_perform;
use crate::project::spec_redo;
use crate::project::spec_redo_ok;
use crate::project::spec_undo;
use crate::project::spec_undo_ok;
use crate::project::spec_undo_steps;
use crate::project::lemma_do_action_stack;
use crate::reactive_list::ReactiveListKey;
use crate::reactive_list::has_key;
use crate::reactive_list::key_index;
use crate::selection::SelectionView;
use crate::track::TrackId;

verus! {

broadcast use vstd::seq_lib::group_to_multiset_ensures;

/// The values of a keyed note sequence, as a multiset: what the listener
/// hears, independent of bookkeeping keys.
pub open spec fn note_values(notes: Seq<(ReactiveListKey, Note)>) -> Multiset<Note> {
    notes.map_values(|e: (ReactiveListKey, Note)| e.1).to_multiset()
}

/// The observable state of a project: tempo, cursor, selection,
/// signatures, and each track's kind and note values. Stacks and key
/// counters are bookkeeping.
#[verifier::ext_equal]
pub ghost struct Observation {
    pub tempo: u32,
    pub player_time: Time,
    pub selection: SelectionView,
    pub key_signature: KeySignature,
    pub time_signature: TimeSignature,
    pub track_kinds: Map<TrackId, bool>,
    pub track_notes: Map<TrackId, Multiset<Note>>,
}

pub open spec fn observe(m: ProjectModel) -> Observation {
    Observation {
        tempo: m.tempo,
        player_time: m.player_time,
        selection: m.selection,
        key_signature: m.key_signature,
        time_signature: m.time_signature,
        track_kinds: Map::new(
            |t: TrackId| m.tracks.contains_key(t),
            |t: TrackId| m.tracks[t].is_midi,
        ),
        track_notes: Map::new(
            |t: TrackId| m.tracks.contains_key(t),
            |t: TrackId| note_values(m.tracks[t].notes),
        ),
    }
}

/// Equality of everything observable, and of the exact note sequences:
/// only the stacks and the key counters may differ.
pub open spec fn core_eq(m1: ProjectModel, m2: ProjectModel) -> bool {
    &&& m1.tempo == m2.tempo
    &&& m1.player_time == m2.player_time
    &&& m1.selection == m2.selection
    &&& m1.key_signature == m2.key_signature
    &&& m1.time_signature == m2.time_signature
    &&& (forall|t: TrackId| m1.tracks.contains_key(t) <==> #[trigger] m2.tracks.contains_key(t))
    &&& (forall|t: TrackId| #[trigger]
        m1.tracks.contains_key(t) ==> m1.tracks[t].is_midi == m2.tracks[t].is_midi
            && m1.tracks[t].notes == m2.tracks[t].notes)
}

/// Core-equal states observe equal.
pub proof fn lemma_core_eq_observe(m1: ProjectModel, m2: ProjectModel)
    requires
        core_eq(m1, m2),
    ensures
        observe(m1) == observe(m2),
{
    assert(observe(m1).track_kinds =~= observe(m2).track_kinds);
    assert(observe(m1).track_notes =~= observe(m2).track_notes);
    assert(observe(m1) =~~= observe(m2));
}

/// Executing a valid action preserves the model invariant.
pub proof fn lemma_do_action_inv(m: ProjectModel, a: ActionModel, mode: ActionType)
    requires
        m.inv(),
        crate::project::action_ok(m, a),
    ensures
        do_action(m, a, mode).inv(),
    decreases a, 1int,
{
    match a {
        ActionModel::Group(subs) => {
            lemma_do_subs_inv(m, subs);
        },
        ActionModel::AddMidiNote { track_id, note } => {
            let m1 = do_action(m, a, mode);
            let tm = m.tracks[track_id];
            let key = tm.key_ctr as ReactiveListKey;
            assert forall|t: TrackId| #[trigger] m1.tracks.contains_key(t) implies {
                let tm1 = m1.tracks[t];
                &&& (forall|i: int, j: int|
                    0 <= i < j < tm1.notes.len() ==> (#[trigger] tm1.notes[i]).0 < (
                    #[trigger] tm1.notes[j]).0)
                &&& (forall|i: int|
                    0 <= i < tm1.notes.len() ==> (#[trigger] tm1.notes[i]).0 < tm1.key_ctr)
                &&& (!tm1.is_midi ==> tm1.notes.len() == 0)
            } by {
                if t == track_id {
                    let tm1 = m1.tracks[t];
                    assert(tm1.notes == tm.notes.push((key, note)));
                    assert forall|i: int, j: int|
                        0 <= i < j < tm1.notes.len() implies (#[trigger] tm1.notes[i]).0 < (
                    #[trigger] tm1.notes[j]).0 by {
                        assert(tm1.notes[i] == tm.notes[i]);
                        if j < tm.notes.len() {
                            assert(tm1.notes[j] == tm.notes[j]);
                        } else {
                            assert(tm.notes[i].0 < tm.key_ctr);
                        }
                    }
                    assert forall|i: int|
                        0 <= i < tm1.notes.len() implies (#[trigger] tm1.notes[i]).0
                        < tm1.key_ctr by {
                        if i < tm.notes.len() {
                            assert(tm1.notes[i] == tm.notes[i]);
                            assert(tm.notes[i].0 < tm.key_ctr);
                        }
                    }
                } else {
                    assert(m1.tracks[t] == m.tracks[t]);
                    assert(m.tracks.contains_key(t));
                }
            }
        },
        ActionModel::RemoveMidiNote { track_id, note_id } => {
            let m1 = do_action(m, a, mode);
            let tm = m.tracks[track_id];
            let idx = key_index(tm.notes, note_id);
            assert(has_key(tm.notes, note_id));
            assert(0 <= idx < tm.notes.len());
            assert forall|t: TrackId| #[trigger] m1.tracks.contains_key(t) implies {
                let tm1 = m1.tracks[t];
                &&& (forall|i: int, j: int|
                    0 <= i < j < tm1.notes.len() ==> (#[trigger] tm1.notes[i]).0 < (
                    #[trigger] tm1.notes[j]).0)
                &&& (forall|i: int|
                    0 <= i < tm1.notes.len() ==> (#[trigger] tm1.notes[i]).0 < tm1.key_ctr)
                &&& (!tm1.is_midi ==> tm1.notes.len() == 0)
            } by {
                if t == track_id {
                    let tm1 = m1.tracks[t];
                    assert(tm1.notes == tm.notes.remove(idx));
                    assert forall|i: int, j: int|
                        0 <= i < j < tm1.notes.len() implies (#[trigger] tm1.notes[i]).0 < (
                    #[trigger] tm1.notes[j]).0 by {
                        let i0 = if i < idx {
                            i
                        } else {
                            i + 1
                        };
                        let j0 = if j < idx {
                            j
                        } else {
                            j + 1
                        };
                        assert(tm1.notes[i] == tm.notes[i0]);
                        assert(tm1.notes[j] == tm.notes[j0]);
                    }
                    assert forall|i: int|
                        0 <= i < tm1.notes.len() implies (#[trigger] tm1.notes[i]).0
                        < tm1.key_ctr by {
                        let i0 = if i < idx {
                            i
                        } else {
                            i + 1
                        };
                        assert(tm1.notes[i] == tm.notes[i0]);
                        assert(tm.notes[i0].0 < tm.key_ctr);
                    }
                } else {
                    assert(m1.tracks[t] == m.tracks[t]);
                    assert(m.tracks.contains_key(t));
                }
            }
        },
        ActionModel::ModifyMidiNote { track_id, note_id, new_note } => {
            let m1 = do_action(m, a, mode);
            let tm = m.tracks[track_id];
            let idx = key_index(tm.notes, note_id);
            assert(has_key(tm.notes, note_id));
            assert(0 <= idx < tm.notes.len());
            assert forall|t: TrackId| #[trigger] m1.tracks.contains_key(t) implies {
                let tm1 = m1.tracks[t];
                &&& (forall|i: int, j: int|
                    0 <= i < j < tm1.notes.len() ==> (#[trigger] tm1.notes[i]).0 < (
                    #[trigger] tm1.notes[j]).0)
                &&& (forall|i: int|
                    0 <= i < tm1.notes.len() ==> (#[trigger] tm1.notes[i]).0 < tm1.key_ctr)
                &&& (!tm1.is_midi ==> tm1.notes.len() == 0)
            } by {
                if t == track_id {
                    let tm1 = m1.tracks[t];
                    assert(tm1.notes == tm.notes.update(idx, (note_id, new_note)));
                    assert(tm.notes[idx].0 == note_id);
                    assert forall|i: int, j: int|
                        0 <= i < j < tm1.notes.len() implies (#[trigger] tm1.notes[i]).0 < (
                    #[trigger] tm1.notes[j]).0 by {
                        assert(tm1.notes[i].0 == tm.notes[i].0);
                        assert(tm1.notes[j].0 == tm.notes[j].0);
                    }
                    assert forall|i: int|
                        0 <= i < tm1.notes.len() implies (#[trigger] tm1.notes[i]).0
                        < tm1.key_ctr by {
                        assert(tm1.notes[i].0 == tm.notes[i].0);
                        assert(tm.notes[i].0 < tm.key_ctr);
                    }
                } else {
                    assert(m1.tracks[t] == m.tracks[t]);
                    assert(m.tracks.contains_key(t));
                }
            }
        },
        _ => {
            let m1 = do_action(m, a, mode);
            assert forall|t: TrackId| #[trigger] m1.tracks.contains_key(t) implies
                m.tracks.contains_key(t) && m1.tracks[t] == m.tracks[t] by {}
        },
    }
}

/// Executing a valid group body preserves the model invariant.
pub proof fn lemma_do_subs_inv(m: ProjectModel, subs: Seq<ActionModel>)
    requires
        m.inv(),
        crate::project::subs_ok(m, subs),
    ensures
        crate::project::do_subs(m, subs).inv(),
    decreases subs, 0int,
{
    if subs.len() > 0 {
        lemma_do_action_inv(m, subs[0], ActionType::Normal);
        lemma_do_subs_inv(
            do_action(m, subs[0], ActionType::Normal),
            subs.drop_first(),
        );
    }
}

/// Chains core-equality through an action that leaves the tracks as they
/// were.
proof fn lemma_core_eq_chain(
    s: ProjectModel,
    post: ProjectModel,
    pre: ProjectModel,
    m1: ProjectModel,
)
    requires
        core_eq(s, post),
        m1.tracks == s.tracks,
        post.tracks == pre.tracks,
        m1.tempo == pre.tempo,
        m1.player_time == pre.player_time,
        m1.selection == pre.selection,
        m1.key_signature == pre.key_signature,
        m1.time_signature == pre.time_signature,
    ensures
        core_eq(m1, pre),
{
    assert forall|t: TrackId|
        m1.tracks.contains_key(t) <==> #[trigger] pre.tracks.contains_key(t) by {
        assert(s.tracks.contains_key(t) <==> post.tracks.contains_key(t));
    }
    assert forall|t: TrackId| #[trigger]
        m1.tracks.contains_key(t) implies m1.tracks[t].is_midi == pre.tracks[t].is_midi
        && m1.tracks[t].notes == pre.tracks[t].notes by {
        assert(s.tracks.contains_key(t));
    }
}

/// One undo step against a plain, non-removing action: in any state that
/// core-agrees with the action's outcome and carries the recorded
/// inverse on top of its undo stack, that inverse is applicable, chains
/// exactly when the action did, and its execution core-restores the
/// state the action started from.
pub proof fn lemma_undo_step_restores(pre: ProjectModel, a: ActionModel, s: ProjectModel)
    requires
        pre.inv(),
        s.inv(),
        simple_ok(pre, a),
        !(a is Group),
        !(a is RemoveMidiNote),
        core_eq(s, do_action(pre, a, ActionType::Normal)),
        s.undo_stack == do_action(pre, a, ActionType::Normal).undo_stack,
    ensures
        s.undo_stack.len() == pre.undo_stack.len() + 1,
        ({
            let inv_a = s.undo_stack.last();
            let popped = ProjectModel { undo_stack: s.undo_stack.drop_last(), ..s };
            let m1 = do_action(popped, inv_a, ActionType::Undo);
            &&& !(inv_a is Group)
            &&& auto_undoes(inv_a) == auto_undoes(a)
            &&& simple_ok(popped, inv_a)
            &&& core_eq(m1, pre)
            &&& m1.undo_stack == pre.undo_stack
            &&& m1.inv()
        }),
{
    let post = do_action(pre, a, ActionType::Normal);
    let inv_a = apply_simple(pre, a).1;
    assert(s.undo_stack == pre.undo_stack.push(inv_a));
    assert(s.undo_stack.last() == inv_a);
    assert(s.undo_stack.drop_last() =~= pre.undo_stack);
    let popped = ProjectModel { undo_stack: s.undo_stack.drop_last(), ..s };
    let m1 = do_action(popped, inv_a, ActionType::Undo);
    match a {
        ActionModel::SetSelection(_) => {
            lemma_core_eq_chain(s, post, pre, m1);
        },
        ActionModel::MoveTimeCursor(_) => {
            lemma_core_eq_chain(s, post, pre, m1);
        },
        ActionModel::ChangeTempo(_) => {
            lemma_core_eq_chain(s, post, pre, m1);
        },
        ActionModel::AddMidiNote { track_id, note } => {
            let tm = pre.tracks[track_id];
            let key = tm.key_ctr as ReactiveListKey;
            assert(inv_a == ActionModel::RemoveMidiNote { track_id, note_id: key });
            assert(post.tracks.contains_key(track_id));
            assert(s.tracks.contains_key(track_id));
            assert(s.tracks[track_id].notes == post.tracks[track_id].notes);
            assert(s.tracks[track_id].is_midi == post.tracks[track_id].is_midi);
            let snotes = popped.tracks[track_id].notes;
            assert(snotes == tm.notes.push((key, note)));
            assert(snotes[snotes.len() - 1].0 == key);
            assert(has_key(snotes, key));
            assert(simple_ok(popped, inv_a));
            let idx = key_index(snotes, key);
            assert(0 <= idx < snotes.len() && snotes[idx].0 == key);
            if idx < snotes.len() - 1 {
                assert(popped.tracks.contains_key(track_id));
                assert(snotes[idx].0 < snotes[snotes.len() - 1].0);
            }
            assert(idx == snotes.len() - 1);
            assert(snotes.remove(idx) =~= tm.notes);
            assert forall|t: TrackId| #[trigger] m1.tracks.contains_key(t) implies
                pre.tracks.contains_key(t) && m1.tracks[t].is_midi == pre.tracks[t].is_midi
                && m1.tracks[t].notes == pre.tracks[t].notes by {
                if t != track_id {
                    assert(m1.tracks[t] == popped.tracks[t]);
                    assert(post.tracks.contains_key(t));
                }
            }
            assert forall|t: TrackId|
                m1.tracks.contains_key(t) <==> #[trigger] pre.tracks.contains_key(t) by {
                assert(s.tracks.contains_key(t) <==> post.tracks.contains_key(t));
            }
            assert(core_eq(m1, pre));
        },
        ActionModel::ModifyMidiNote { track_id, note_id, new_note } => {
            let tm = pre.tracks[track_id];
            let idx0 = key_index(tm.notes, note_id);
            let old_note = tm.notes[idx0].1;
            assert(inv_a == ActionModel::ModifyMidiNote { track_id, note_id, new_note: old_note });
            assert(post.tracks.contains_key(track_id));
            assert(s.tracks.contains_key(track_id));
            assert(s.tracks[track_id].notes == post.tracks[track_id].notes);
            assert(s.tracks[track_id].is_midi == post.tracks[track_id].is_midi);
            let snotes = popped.tracks[track_id].notes;
            assert(snotes == tm.notes.update(idx0, (note_id, new_note)));
            assert(snotes[idx0].0 == note_id);
            assert(has_key(snotes, note_id));
            assert(simple_ok(popped, inv_a));
            let idx1 = key_index(snotes, note_id);
            assert(0 <= idx1 < snotes.len() && snotes[idx1].0 == note_id);
            if idx1 != idx0 {
                assert(popped.tracks.contains_key(track_id));
                if idx1 < idx0 {
                    assert(snotes[idx1].0 < snotes[idx0].0);
                } else {
                    assert(snotes[idx0].0 < snotes[idx1].0);
                }
            }
            assert(idx1 == idx0);
            assert(snotes.update(idx1, (note_id, old_note)) =~= tm.notes);
            assert forall|t: TrackId| #[trigger] m1.tracks.contains_key(t) implies
                pre.tracks.contains_key(t) && m1.tracks[t].is_midi == pre.tracks[t].is_midi
                && m1.tracks[t].notes == pre.tracks[t].notes by {
                if t != track_id {
                    assert(m1.tracks[t] == popped.tracks[t]);
                    assert(post.tracks.contains_key(t));
                }
            }
            assert forall|t: TrackId|
                m1.tracks.contains_key(t) <==> #[trigger] pre.tracks.contains_key(t) by {
                assert(s.tracks.contains_key(t) <==> post.tracks.contains_key(t));
            }
            assert(core_eq(m1, pre));
        },
        _ => {
            assert(false);
        },
    }
    lemma_do_action_inv(popped, inv_a, ActionType::Undo);
}

/// The state after performing a sequence of edits, in order.
pub open spec fn perform_all(m: ProjectModel, acts: Seq<ActionModel>) -> ProjectModel
    decreases acts.len(),
{
    if acts.len() == 0 {
        m
    } else {
        do_action(perform_all(m, acts.drop_last()), acts.last(), ActionType::Normal)
    }
}

/// Sequential validity of a sequence of non-group edits.
pub open spec fn acts_ok(m: ProjectModel, acts: Seq<ActionModel>) -> bool
    decreases acts.len(),
{
    if acts.len() == 0 {
        true
    } else {
        acts_ok(m, acts.drop_last()) && simple_ok(perform_all(m, acts.drop_last()), acts.last())
    }
}

/// No groups, no removals: see the module documentation for why the
/// round-trip law needs both exclusions.
pub open spec fn plain_actions(acts: Seq<ActionModel>) -> bool {
    forall|i: int|
        0 <= i < acts.len() ==> !((#[trigger] acts[i]) is Group) && !(acts[i] is RemoveMidiNote)
}

/// A valid prefix of a valid sequence is valid.
pub proof fn lemma_acts_ok_prefix(m: ProjectModel, acts: Seq<ActionModel>, j: int)
    requires
        acts_ok(m, acts),
        0 <= j <= acts.len(),
    ensures
        acts_ok(m, acts.take(j)),
    decreases acts.len() - j,
{
    if j == acts.len() {
        assert(acts.take(j) =~= acts);
    } else {
        lemma_acts_ok_prefix(m, acts, j + 1);
        assert(acts.take(j + 1).drop_last() =~= acts.take(j));
        assert(acts_ok(m, acts.take(j + 1)));
    }
}

/// Performing valid plain edits preserves the model invariant.
pub proof fn lemma_perform_all_inv(m: ProjectModel, acts: Seq<ActionModel>)
    requires
        m.inv(),
        acts_ok(m, acts),
        plain_actions(acts),
    ensures
        perform_all(m, acts).inv(),
    decreases acts.len(),
{
    if acts.len() > 0 {
        assert(plain_actions(acts.drop_last())) by {
            assert(forall|i: int|
                0 <= i < acts.drop_last().len() ==> acts.drop_last()[i] == acts[i]);
        }
        lemma_perform_all_inv(m, acts.drop_last());
        assert(!(acts.last() is Group));
        lemma_do_action_inv(perform_all(m, acts.drop_last()), acts.last(), ActionType::Normal);
    }
}

/// Each performed edit grows the undo stack by exactly one inverse.
pub proof fn lemma_perform_all_len(m: ProjectModel, acts: Seq<ActionModel>)
    ensures
        perform_all(m, acts).undo_stack.len() == m.undo_stack.len() + acts.len(),
    decreases acts.len(),
{
    if acts.len() > 0 {
        lemma_perform_all_len(m, acts.drop_last());
        lemma_do_action_stack(perform_all(m, acts.drop_last()), acts.last(), ActionType::Normal);
    }
}

/// The undo pass's induction assertion: `s` agrees with the state after
/// the first `i` edits on everything but the key counters, and still
/// carries exactly their recorded inverses.
pub open spec fn undo_midpoint(
    m0: ProjectModel,
    acts: Seq<ActionModel>,
    s: ProjectModel,
    i: int,
) -> bool {
    &&& 0 <= i <= acts.len()
    &&& s.inv()
    &&& core_eq(s, perform_all(m0, acts.take(i)))
    &&& s.undo_stack == perform_all(m0, acts.take(i)).undo_stack
}

/// One `undo` call from a midpoint lands on an earlier midpoint, strictly
/// earlier while anything is left to undo, and every step it takes is
/// valid.
pub proof fn lemma_undo_call_restores(m0: ProjectModel, acts: Seq<ActionModel>, s: ProjectModel)
    requires
        m0.inv(),
        m0.undo_stack.len() == 0,
        plain_actions(acts),
        acts_ok(m0, acts),
        undo_midpoint(m0, acts, s, s.undo_stack.len() as int),
        s.undo_stack.len() <= acts.len(),
    ensures
        spec_undo_ok(s),
        undo_midpoint(m0, acts, spec_undo(s), spec_undo(s).undo_stack.len() as int),
        spec_undo(s).undo_stack.len() <= acts.len(),
        s.undo_stack.len() > 0 ==> spec_undo(s).undo_stack.len() < s.undo_stack.len(),
    decreases s.undo_stack.len(),
{
    let i = s.undo_stack.len() as int;
    if i == 0 {
    } else {
        let pre_i = perform_all(m0, acts.take(i - 1));
        let post_i = perform_all(m0, acts.take(i));
        let a_i = acts[i - 1];
        assert(acts.take(i).drop_last() =~= acts.take(i - 1));
        assert(acts.take(i).last() == a_i);
        assert(post_i == do_action(pre_i, a_i, ActionType::Normal));
        lemma_acts_ok_prefix(m0, acts, i);
        lemma_acts_ok_prefix(m0, acts, i - 1);
        assert(simple_ok(pre_i, a_i)) by {
            assert(acts_ok(m0, acts.take(i)));
        }
        assert(plain_actions(acts.take(i - 1))) by {
            assert(forall|q: int|
                0 <= q < acts.take(i - 1).len() ==> acts.take(i - 1)[q] == acts[q]);
        }
        lemma_perform_all_inv(m0, acts.take(i - 1));
        lemma_perform_all_len(m0, acts.take(i));
        lemma_perform_all_len(m0, acts.take(i - 1));
        lemma_undo_step_restores(pre_i, a_i, s);
        let inv_a = s.undo_stack.last();
        let popped = ProjectModel { undo_stack: s.undo_stack.drop_last(), ..s };
        let m1 = do_action(popped, inv_a, ActionType::Undo);
        assert(m1.undo_stack.len() == i - 1);
        assert(undo_midpoint(m0, acts, m1, i - 1));
        assert(crate::project::action_ok(popped, inv_a));
        if auto_undoes(inv_a) {
            lemma_undo_call_restores(m0, acts, m1);
            assert(spec_undo_steps(s, s.undo_stack.len()) == spec_undo_steps(
                m1,
                (s.undo_stack.len() - 1) as nat,
            ));
            assert((s.undo_stack.len() - 1) as nat == m1.undo_stack.len());
            assert(spec_undo(s) == spec_undo(m1));
            assert(crate::project::undo_steps_ok(s, s.undo_stack.len()));
        } else {
            assert(spec_undo(s) == m1);
        }
    }
}

/// The state after `k` undo calls.
pub open spec fn undo_calls(m: ProjectModel, k: nat) -> ProjectModel
    decreases k,
{
    if k == 0 {
        m
    } else {
        undo_calls(spec_undo(m), (k - 1) as nat)
    }
}

/// Validity of `k` undo calls in sequence.
pub open spec fn undo_calls_ok(m: ProjectModel, k: nat) -> bool
    decreases k,
{
    if k == 0 {
        true
    } else {
        spec_undo_ok(m) && undo_calls_ok(spec_undo(m), (k - 1) as nat)
    }
}

/// Enough undo calls from a midpoint drain the stack and core-restore
/// the initial state.
pub proof fn lemma_undo_calls_restore(
    m0: ProjectModel,
    acts: Seq<ActionModel>,
    s: ProjectModel,
    k: nat,
)
    requires
        m0.inv(),
        m0.undo_stack.len() == 0,
        plain_actions(acts),
        acts_ok(m0, acts),
        undo_midpoint(m0, acts, s, s.undo_stack.len() as int),
        s.undo_stack.len() <= acts.len(),
        s.undo_stack.len() <= k,
    ensures
        undo_calls_ok(s, k),
        undo_calls(s, k).undo_stack.len() == 0,
        core_eq(undo_calls(s, k), m0),
    decreases k,
{
    if k == 0 {
        assert(acts.take(0) =~= Seq::<ActionModel>::empty());
    } else {
        lemma_undo_call_restores(m0, acts, s);
        let s2 = spec_undo(s);
        lemma_undo_calls_restore(m0, acts, s2, (k - 1) as nat);
    }
}

/// Performing any sequence of valid plain edits on a project with an
/// empty undo stack, then calling `undo` as many times as there were
/// edits, restores the initial observable state — with the exact note
/// sequences, keys included — and leaves the undo stack empty. Every
/// undo step along the way is valid.
pub proof fn lemma_perform_then_undo_restores(m0: ProjectModel, acts: Seq<ActionModel>)
    requires
        m0.inv(),
        m0.undo_stack.len() == 0,
        plain_actions(acts),
        acts_ok(m0, acts),
    ensures
        ({
            let mn = perform_all(m0, acts);
            &&& undo_calls_ok(mn, acts.len())
            &&& undo_calls(mn, acts.len()).undo_stack.len() == 0
            &&& core_eq(undo_calls(mn, acts.len()), m0)
            &&& observe(undo_calls(mn, acts.len())) == observe(m0)
        }),
{
    let mn = perform_all(m0, acts);
    lemma_perform_all_inv(m0, acts);
    lemma_perform_all_len(m0, acts);
    assert(acts.take(acts.len() as int) =~= acts);
    assert(undo_midpoint(m0, acts, mn, mn.undo_stack.len() as int));
    lemma_undo_calls_restore(m0, acts, mn, acts.len());
    lemma_core_eq_observe(undo_calls(mn, acts.len()), m0);
}

/// Appending an entry adds its value to the multiset.
pub proof fn lemma_note_values_push(notes: Seq<(ReactiveListKey, Note)>, e: (ReactiveListKey, Note))
    ensures
        note_values(notes.push(e)) == note_values(notes).insert(e.1),
{
    let f = |x: (ReactiveListKey, Note)| x.1;
    assert(notes.push(e).map_values(f) =~= notes.map_values(f).push(e.1));
}

/// Removing an entry removes its value from the multiset.
pub proof fn lemma_note_values_remove(notes: Seq<(ReactiveListKey, Note)>, i: int)
    requires
        0 <= i < notes.len(),
    ensures
        note_values(notes.remove(i)) == note_values(notes).remove(notes[i].1),
{
    let f = |x: (ReactiveListKey, Note)| x.1;
    assert(notes.remove(i).map_values(f) =~= notes.map_values(f).remove(i));
    assert(notes.map_values(f)[i] == notes[i].1);
}

/// Removing a present value and putting it back leaves the multiset as
/// it was.
pub proof fn lemma_multiset_remove_insert(ms: Multiset<Note>, x: Note)
    requires
        ms.count(x) >= 1,
    ensures
        ms.remove(x).insert(x) == ms,
{
    assert(ms.remove(x).insert(x) =~= ms);
}

/// Observable equality assembled from field equalities and per-track
/// note multisets.
proof fn lemma_observe_from_parts(m1: ProjectModel, m2: ProjectModel)
    requires
        m1.tempo == m2.tempo,
        m1.player_time == m2.player_time,
        m1.selection == m2.selection,
        m1.key_signature == m2.key_signature,
        m1.time_signature == m2.time_signature,
        forall|t: TrackId| m1.tracks.contains_key(t) <==> #[trigger] m2.tracks.contains_key(t),
        forall|t: TrackId| #[trigger]
            m1.tracks.contains_key(t) ==> m1.tracks[t].is_midi == m2.tracks[t].is_midi
                && note_values(m1.tracks[t].notes) == note_values(m2.tracks[t].notes),
    ensures
        observe(m1) == observe(m2),
{
    assert(observe(m1).track_kinds =~= observe(m2).track_kinds);
    assert(observe(m1).track_notes =~= observe(m2).track_notes);
    assert(observe(m1) =~~= observe(m2));
}

/// Whatever an undo/redo round trip will re-create must still have room
/// in the key counter; a machine limit, never reached in practice.
pub open spec fn replay_room(m: ProjectModel, a: ActionModel) -> bool {
    match a {
        ActionModel::AddMidiNote { track_id, .. } => m.tracks[track_id].key_ctr + 1 < usize::MAX,
        ActionModel::RemoveMidiNote { track_id, .. } => m.tracks[track_id].key_ctr < usize::MAX,
        _ => true,
    }
}

/// After one plain edit, the undo call is valid: the recorded inverse is
/// applicable where it sits. When the edit chains on undo (cursor moves
/// and selection changes), the undo stack must have been empty before
/// it, or undo would walk on into older edits whose replay this lemma
/// cannot vouch for. Lets a verified driver call `undo` right after
/// `perform_action`.
pub proof fn lemma_undo_ok_after_perform(m: ProjectModel, a: ActionModel)
    requires
        m.inv(),
        !(a is Group),
        simple_ok(m, a),
        replay_room(m, a),
        auto_undoes(a) ==> m.undo_stack.len() == 0,
    ensures
        spec_undo_ok(spec_perform(m, a)),
{
    let m1 = do_action(m, a, ActionType::Normal);
    let inv_a = apply_simple(m, a).1;
    lemma_do_action_inv(m, a, ActionType::Normal);
    assert(m1.undo_stack == m.undo_stack.push(inv_a));
    assert(m1.undo_stack.last() == inv_a);
    assert(m1.undo_stack.drop_last() =~= m.undo_stack);
    let popped = ProjectModel { undo_stack: m1.undo_stack.drop_last(), ..m1 };
    if a is RemoveMidiNote {
        let track_id = a->RemoveMidiNote_track_id;
        let note_id = a->RemoveMidiNote_note_id;
        let tm = m.tracks[track_id];
        let idx0 = key_index(tm.notes, note_id);
        let note = tm.notes[idx0].1;
        assert(inv_a == ActionModel::AddMidiNote { track_id, note });
        assert(simple_ok(popped, inv_a));
    } else {
        lemma_undo_step_restores(m, a, m1);
    }
    assert(crate::project::action_ok(popped, inv_a));
    if auto_undoes(inv_a) {
        let m2 = do_action(popped, inv_a, ActionType::Undo);
        lemma_do_action_stack(popped, inv_a, ActionType::Undo);
        assert(m2.undo_stack.len() == 0);
        assert(crate::project::undo_steps_ok(m2, (m1.undo_stack.len() - 1) as nat));
    }
}

/// Every member adds a note to the MIDI track `t`: the shape of a chord
/// entry.
pub open spec fn adds_to_track(subs: Seq<ActionModel>, t: TrackId) -> bool {
    forall|i: int|
        0 <= i < subs.len() ==> (#[trigger] subs[i]) is AddMidiNote
            && subs[i]->AddMidiNote_track_id == t
}

/// What performing a group of additions to one track does: the track
/// gains the added notes, in order, under consecutive fresh keys, and
/// the undo stack gains one removal per addition, in the same order.
proof fn lemma_add_group_forward(m: ProjectModel, subs: Seq<ActionModel>, t: TrackId)
    requires
        m.inv(),
        adds_to_track(subs, t),
        crate::project::subs_ok(m, subs),
        subs.len() > 0,
    ensures
        ({
            let mg = crate::project::do_subs(m, subs);
            let n = subs.len() as int;
            let k0 = m.tracks[t].key_ctr;
            &&& m.tracks.contains_key(t)
            &&& m.tracks[t].is_midi
            &&& k0 + n <= usize::MAX
            &&& mg.inv()
            &&& mg.tracks == m.tracks.insert(
                t,
                TrackModel {
                    is_midi: true,
                    notes: m.tracks[t].notes + Seq::new(
                        n as nat,
                        |i: int| (
                            ((k0 + i) as ReactiveListKey),
                            subs[i]->AddMidiNote_note,
                        ),
                    ),
                    key_ctr: (k0 + n) as nat,
                },
            )
            &&& mg.undo_stack == m.undo_stack + Seq::new(
                n as nat,
                |i: int| ActionModel::RemoveMidiNote {
                    track_id: t,
                    note_id: ((k0 + i) as ReactiveListKey),
                },
            )
        }),
    decreases subs.len(),
{
    let a0 = subs[0];
    let note0 = a0->AddMidiNote_note;
    let k0 = m.tracks[t].key_ctr;
    assert(crate::project::action_ok(m, a0));
    assert(simple_ok(m, a0));
    let m1 = do_action(m, a0, ActionType::Normal);
    lemma_do_action_inv(m, a0, ActionType::Normal);
    assert(m1.tracks == m.tracks.insert(
        t,
        TrackModel {
            is_midi: true,
            notes: m.tracks[t].notes.push(((k0 as ReactiveListKey), note0)),
            key_ctr: (k0 + 1) as nat,
        },
    )) by {
        assert(m.tracks[t].is_midi);
        assert(m1.tracks =~~= m.tracks.insert(
            t,
            TrackModel {
                is_midi: true,
                notes: m.tracks[t].notes.push(((k0 as ReactiveListKey), note0)),
                key_ctr: (k0 + 1) as nat,
            },
        ));
    }
    assert(m1.undo_stack == m.undo_stack.push(
        ActionModel::RemoveMidiNote { track_id: t, note_id: (k0 as ReactiveListKey) },
    ));
    let rest = subs.drop_first();
    assert(adds_to_track(rest, t)) by {
        assert(forall|i: int| 0 <= i < rest.len() ==> rest[i] == subs[i + 1]);
    }
    let mg = crate::project::do_subs(m, subs);
    let n = subs.len() as int;
    if rest.len() == 0 {
        assert(crate::project::do_subs(m1, rest) == m1);
        assert(mg == m1);
        assert(mg.tracks =~~= m.tracks.insert(
            t,
            TrackModel {
                is_midi: true,
                notes: m.tracks[t].notes + Seq::new(
                    n as nat,
                    |i: int| (((k0 + i) as ReactiveListKey), subs[i]->AddMidiNote_note),
                ),
                key_ctr: (k0 + n) as nat,
            },
        ));
        assert(mg.undo_stack =~= m.undo_stack + Seq::new(
            n as nat,
            |i: int| ActionModel::RemoveMidiNote {
                track_id: t,
                note_id: ((k0 + i) as ReactiveListKey),
            },
        ));
    } else {
        lemma_add_group_forward(m1, rest, t);
        assert(m1.tracks[t].key_ctr == k0 + 1);
        assert(mg == crate::project::do_subs(m1, rest));
        let mid_notes = m1.tracks[t].notes;
        assert(mid_notes == m.tracks[t].notes.push(((k0 as ReactiveListKey), note0)));
        assert(mg.tracks =~~= m.tracks.insert(
            t,
            TrackModel {
                is_midi: true,
                notes: m.tracks[t].notes + Seq::new(
                    n as nat,
                    |i: int| (((k0 + i) as ReactiveListKey), subs[i]->AddMidiNote_note),
                ),
                key_ctr: (k0 + n) as nat,
            },
        )) by {
            assert(mid_notes + Seq::new(
                (n - 1) as nat,
                |i: int| (((k0 + 1 + i) as ReactiveListKey), rest[i]->AddMidiNote_note),
            ) =~= m.tracks[t].notes + Seq::new(
                n as nat,
                |i: int| (((k0 + i) as ReactiveListKey), subs[i]->AddMidiNote_note),
            ));
        }
        assert(mg.undo_stack =~= m.undo_stack + Seq::new(
            n as nat,
            |i: int| ActionModel::RemoveMidiNote {
                track_id: t,
                note_id: ((k0 + i) as ReactiveListKey),
            },
        )) by {
            assert(m1.undo_stack == m.undo_stack.push(
                ActionModel::RemoveMidiNote { track_id: t, note_id: (k0 as ReactiveListKey) },
            ));
            assert(m1.undo_stack + Seq::new(
                (n - 1) as nat,
                |i: int| ActionModel::RemoveMidiNote {
                    track_id: t,
                    note_id: ((k0 + 1 + i) as ReactiveListKey),
                },
            ) =~= m.undo_stack + Seq::new(
                n as nat,
                |i: int| ActionModel::RemoveMidiNote {
                    track_id: t,
                    note_id: ((k0 + i) as ReactiveListKey),
                },
            ));
        }
    }
}

/// Removing a run of distinct keys that are all present is valid in any
/// order the inverse group replays them.
proof fn lemma_removes_ok(s: ProjectModel, t: TrackId, k0: nat, j: int, n: int)
    requires
        s.inv(),
        s.tracks.contains_key(t),
        s.tracks[t].is_midi,
        0 <= j <= n,
        k0 + n <= usize::MAX,
        forall|i: int|
            j <= i < n ==> #[trigger] has_key(s.tracks[t].notes, ((k0 + i) as ReactiveListKey)),
    ensures
        crate::project::subs_ok(
            s,
            Seq::new(
                (n - j) as nat,
                |i: int| ActionModel::RemoveMidiNote {
                    track_id: t,
                    note_id: ((k0 + j + i) as ReactiveListKey),
                },
            ),
        ),
    decreases n - j,
{
    let rs = Seq::new(
        (n - j) as nat,
        |i: int| ActionModel::RemoveMidiNote {
            track_id: t,
            note_id: ((k0 + j + i) as ReactiveListKey),
        },
    );
    if j == n {
        assert(rs.len() == 0);
        assert(crate::project::subs_ok(s, rs));
    } else {
        let head = rs[0];
        let key = (k0 + j) as ReactiveListKey;
        assert(head == ActionModel::RemoveMidiNote { track_id: t, note_id: key });
        assert(has_key(s.tracks[t].notes, key));
        assert(simple_ok(s, head));
        assert(crate::project::action_ok(s, head));
        let s1 = do_action(s, head, ActionType::Normal);
        lemma_do_action_inv(s, head, ActionType::Normal);
        let notes0 = s.tracks[t].notes;
        let idx = key_index(notes0, key);
        assert(0 <= idx < notes0.len() && notes0[idx].0 == key);
        assert(s1.tracks[t].notes == notes0.remove(idx));
        assert forall|i: int|
            j + 1 <= i < n implies #[trigger] has_key(
            s1.tracks[t].notes,
            ((k0 + i) as ReactiveListKey),
        ) by {
            let key_i = (k0 + i) as ReactiveListKey;
            assert(has_key(notes0, key_i));
            let w = key_index(notes0, key_i);
            assert(0 <= w < notes0.len() && notes0[w].0 == key_i);
            assert(w != idx);
            let w1 = if w < idx {
                w
            } else {
                w - 1
            };
            assert(s1.tracks[t].notes[w1] == notes0[w]);
        }
        lemma_removes_ok(s1, t, k0, j + 1, n);
        assert(rs.drop_first() =~= Seq::new(
            (n - j - 1) as nat,
            |i: int| ActionModel::RemoveMidiNote {
                track_id: t,
                note_id: ((k0 + j + 1 + i) as ReactiveListKey),
            },
        ));
        assert(crate::project::subs_ok(s1, rs.drop_first()));
        assert(crate::project::subs_ok(s, rs));
    }
}

/// After a grouped edit that adds notes to one MIDI track — the shape of
/// a chord entry — the undo call is valid: the recorded group inverse
/// removes the freshly issued keys in order, and each removal finds its
/// key. Lets a verified driver call `undo` right after performing such a
/// group.
pub proof fn lemma_undo_ok_after_add_group(m: ProjectModel, subs: Seq<ActionModel>, t: TrackId)
    requires
        m.inv(),
        adds_to_track(subs, t),
        crate::project::subs_ok(m, subs),
    ensures
        spec_undo_ok(spec_perform(m, ActionModel::Group(subs))),
{
    let a = ActionModel::Group(subs);
    let m1 = do_action(m, a, ActionType::Normal);
    let n = subs.len() as int;
    if n == 0 {
        let invs = Seq::<ActionModel>::empty();
        assert(crate::project::do_subs(m, subs) == m);
        assert(m.undo_stack.subrange(m.undo_stack.len() - 0, m.undo_stack.len() as int)
            =~= invs);
        assert(m1.undo_stack.last() == ActionModel::Group(invs));
        assert(m1.undo_stack.drop_last() =~= m.undo_stack.subrange(0, m.undo_stack.len() as int));
        assert(m.undo_stack.subrange(0, m.undo_stack.len() as int) =~= m.undo_stack);
        let popped = ProjectModel { undo_stack: m1.undo_stack.drop_last(), ..m1 };
        assert(crate::project::subs_ok(popped, invs));
        assert(crate::project::action_ok(popped, ActionModel::Group(invs)));
    } else {
        lemma_add_group_forward(m, subs, t);
        let mg = crate::project::do_subs(m, subs);
        let k0 = m.tracks[t].key_ctr;
        let invs = mg.undo_stack.subrange(mg.undo_stack.len() - n, mg.undo_stack.len() as int);
        assert(invs =~= Seq::new(
            n as nat,
            |i: int| ActionModel::RemoveMidiNote {
                track_id: t,
                note_id: ((k0 + i) as ReactiveListKey),
            },
        ));
        assert(m1.undo_stack.last() == ActionModel::Group(invs));
        let popped = ProjectModel { undo_stack: m1.undo_stack.drop_last(), ..m1 };
        assert(popped.tracks == mg.tracks);
        assert(popped.inv()) by {
            assert(forall|u: TrackId| popped.tracks.contains_key(u) ==> popped.tracks[u]
                == mg.tracks[u]);
        }
        let added = Seq::new(
            n as nat,
            |i: int| (((k0 + i) as ReactiveListKey), subs[i]->AddMidiNote_note),
        );
        assert forall|i: int|
            0 <= i < n implies #[trigger] has_key(
            popped.tracks[t].notes,
            ((k0 + i) as ReactiveListKey),
        ) by {
            let w = m.tracks[t].notes.len() + i;
            assert(popped.tracks[t].notes[w] == added[i]);
        }
        lemma_removes_ok(popped, t, k0, 0, n);
        assert(Seq::new(
            n as nat,
            |i: int| ActionModel::RemoveMidiNote {
                track_id: t,
                note_id: ((k0 + 0 + i) as ReactiveListKey),
            },
        ) =~= invs);
        assert(crate::project::action_ok(popped, ActionModel::Group(invs)));
    }
    assert(!auto_undoes(m1.undo_stack.last()));
}

/// Performing one plain edit, undoing it and redoing it restores the
/// observable state the edit produced. When the edit chains on undo
/// (cursor moves and selection changes), the undo stack must have been
/// empty before it, or undo would walk past it into older edits.
pub proof fn lemma_undo_then_redo_roundtrip(m: ProjectModel, a: ActionModel)
    requires
        m.inv(),
        !(a is Group),
        simple_ok(m, a),
        replay_room(m, a),
        auto_undoes(a) ==> m.undo_stack.len() == 0,
    ensures
        ({
            let m1 = spec_perform(m, a);
            &&& spec_undo_ok(m1)
            &&& spec_redo_ok(spec_undo(m1))
            &&& observe(spec_redo(spec_undo(m1))) == observe(m1)
        }),
{
    let m1 = do_action(m, a, ActionType::Normal);
    let inv_a = apply_simple(m, a).1;
    lemma_do_action_inv(m, a, ActionType::Normal);
    assert(m1.undo_stack == m.undo_stack.push(inv_a));
    assert(m1.undo_stack.last() == inv_a);
    assert(m1.undo_stack.drop_last() =~= m.undo_stack);
    let popped = ProjectModel { undo_stack: m1.undo_stack.drop_last(), ..m1 };
    let m2 = do_action(popped, inv_a, ActionType::Undo);
    let inv2 = apply_simple(popped, inv_a).1;

    // The undo call executes exactly the one step.
    assert(!(inv_a is Group));
    if a is RemoveMidiNote {
        let track_id = a->RemoveMidiNote_track_id;
        let note_id = a->RemoveMidiNote_note_id;
        let tm = m.tracks[track_id];
        let idx0 = key_index(tm.notes, note_id);
        let note = tm.notes[idx0].1;
        assert(inv_a == ActionModel::AddMidiNote { track_id, note });
        assert(simple_ok(popped, inv_a));
    } else {
        lemma_undo_step_restores(m, a, m1);
        assert(simple_ok(popped, inv_a));
    }
    assert(crate::project::action_ok(popped, inv_a));
    lemma_do_action_inv(popped, inv_a, ActionType::Undo);
    assert(m2.undo_stack == m.undo_stack);
    lemma_do_action_stack(popped, inv_a, ActionType::Undo);
    assert(auto_undoes(inv_a) == auto_undoes(a));
    if auto_undoes(a) {
        assert(m2.undo_stack.len() == 0);
    }
    assert(spec_undo(m1) == m2) by {
        assert(spec_undo_steps(m1, m1.undo_stack.len()) == (if auto_undoes(inv_a) {
            spec_undo_steps(m2, (m1.undo_stack.len() - 1) as nat)
        } else {
            m2
        }));
        if auto_undoes(inv_a) {
            assert(m2.undo_stack.len() == 0);
        }
    }
    assert(spec_undo_ok(m1)) by {
        if auto_undoes(inv_a) {
            assert(crate::project::undo_steps_ok(m2, (m1.undo_stack.len() - 1) as nat));
        }
    }

    // The redo call pops the single recorded inverse and stops.
    assert(m2.redo_stack == Seq::<ActionModel>::empty().push(inv2));
    assert(m2.redo_stack.last() == inv2);
    assert(m2.redo_stack.drop_last() =~= Seq::<ActionModel>::empty());
    let popped2 = ProjectModel { redo_stack: m2.redo_stack.drop_last(), ..m2 };
    let m3 = do_action(popped2, inv2, ActionType::Redo);
    assert(!(inv2 is Group));
    assert(m3.redo_stack.len() == 0) by {
        lemma_do_action_stack(popped2, inv2, ActionType::Redo);
    }
    assert(spec_redo(m2) == m3) by {
        assert(crate::project::spec_redo_autos(m3, m3.redo_stack.len()) == m3);
    }

    // Validity of the redo and restoration, per kind of edit.
    match a {
        ActionModel::SetSelection(_) => {
            assert(simple_ok(popped2, inv2));
            lemma_core_eq_chain_obs(m, m1, m2, popped2, m3);
        },
        ActionModel::MoveTimeCursor(_) => {
            assert(simple_ok(popped2, inv2));
            lemma_core_eq_chain_obs(m, m1, m2, popped2, m3);
        },
        ActionModel::ChangeTempo(_) => {
            assert(simple_ok(popped2, inv2));
            lemma_core_eq_chain_obs(m, m1, m2, popped2, m3);
        },
        ActionModel::ModifyMidiNote { track_id, note_id, new_note } => {
            let tm = m.tracks[track_id];
            let idx0 = key_index(tm.notes, note_id);
            let old_note = tm.notes[idx0].1;
            assert(inv_a == ActionModel::ModifyMidiNote { track_id, note_id, new_note: old_note });
            let n1 = popped.tracks[track_id].notes;
            assert(n1 == tm.notes.update(idx0, (note_id, new_note)));
            let idx1 = key_index(n1, note_id);
            assert(n1[idx0].0 == note_id);
            assert(has_key(n1, note_id));
            assert(0 <= idx1 < n1.len() && n1[idx1].0 == note_id);
            if idx1 != idx0 {
                assert(m1.tracks.contains_key(track_id));
                if idx1 < idx0 {
                    assert(n1[idx1].0 < n1[idx0].0);
                } else {
                    assert(n1[idx0].0 < n1[idx1].0);
                }
            }
            assert(idx1 == idx0);
            assert(inv2 == ActionModel::ModifyMidiNote { track_id, note_id, new_note });
            let n2 = popped2.tracks[track_id].notes;
            assert(n2 == n1.update(idx0, (note_id, old_note)));
            assert(n2[idx0].0 == note_id);
            assert(has_key(n2, note_id));
            assert(simple_ok(popped2, inv2));
            let idx2 = key_index(n2, note_id);
            if idx2 != idx0 {
                assert(m2.tracks.contains_key(track_id));
                if idx2 < idx0 {
                    assert(n2[idx2].0 < n2[idx0].0);
                } else {
                    assert(n2[idx0].0 < n2[idx2].0);
                }
            }
            assert(idx2 == idx0);
            assert(m3.tracks[track_id].notes == n2.update(idx0, (note_id, new_note)));
            assert(m3.tracks[track_id].notes =~= n1);
            lemma_track_obs(m1, m3, track_id);
        },
        ActionModel::AddMidiNote { track_id, note } => {
            let tm = m.tracks[track_id];
            let key = tm.key_ctr as ReactiveListKey;
            assert(inv_a == ActionModel::RemoveMidiNote { track_id, note_id: key });
            let n1 = popped.tracks[track_id].notes;
            assert(n1 == tm.notes.push((key, note)));
            assert(n1[n1.len() - 1].0 == key);
            assert(has_key(n1, key));
            let idx1 = key_index(n1, key);
            if idx1 != n1.len() - 1 {
                assert(m1.tracks.contains_key(track_id));
                assert(n1[idx1].0 < n1[n1.len() - 1].0);
            }
            assert(idx1 == n1.len() - 1);
            assert(inv2 == ActionModel::AddMidiNote { track_id, note });
            assert(m2.tracks[track_id].notes =~= tm.notes);
            assert(m2.tracks[track_id].key_ctr == tm.key_ctr + 1);
            assert(simple_ok(popped2, inv2));
            let kc = (tm.key_ctr + 1) as ReactiveListKey;
            assert(m3.tracks[track_id].notes == tm.notes.push((kc, note)));
            lemma_note_values_push(tm.notes, (key, note));
            lemma_note_values_push(tm.notes, (kc, note));
            assert(note_values(m3.tracks[track_id].notes) == note_values(
                m1.tracks[track_id].notes,
            ));
            lemma_track_obs_multiset(m1, m3, track_id);
        },
        ActionModel::RemoveMidiNote { track_id, note_id } => {
            let tm = m.tracks[track_id];
            let idx0 = key_index(tm.notes, note_id);
            let note = tm.notes[idx0].1;
            assert(inv_a == ActionModel::AddMidiNote { track_id, note });
            let n1 = popped.tracks[track_id].notes;
            assert(n1 == tm.notes.remove(idx0));
            let kc = tm.key_ctr as ReactiveListKey;
            assert(popped.tracks[track_id].key_ctr == tm.key_ctr);
            let n2 = popped2.tracks[track_id].notes;
            assert(n2 == n1.push((kc, note)));
            assert(inv2 == ActionModel::RemoveMidiNote { track_id, note_id: kc });
            assert(n2[n2.len() - 1].0 == kc);
            assert(has_key(n2, kc));
            assert(simple_ok(popped2, inv2));
            let idx2 = key_index(n2, kc);
            if idx2 != n2.len() - 1 {
                assert(m2.tracks.contains_key(track_id));
                assert(n2[idx2].0 < n2[n2.len() - 1].0);
            }
            assert(idx2 == n2.len() - 1);
            assert(m3.tracks[track_id].notes == n2.remove(idx2));
            assert(m3.tracks[track_id].notes =~= n1);
            lemma_track_obs(m1, m3, track_id);
        },
        _ => {
            assert(false);
        },
    }
}

/// Observation equality when only one track was touched and its note
/// sequence came back exactly.
proof fn lemma_track_obs(m1: ProjectModel, m3: ProjectModel, track_id: TrackId)
    requires
        m1.tempo == m3.tempo,
        m1.player_time == m3.player_time,
        m1.selection == m3.selection,
        m1.key_signature == m3.key_signature,
        m1.time_signature == m3.time_signature,
        forall|t: TrackId| m1.tracks.contains_key(t) <==> #[trigger] m3.tracks.contains_key(t),
        forall|t: TrackId| #[trigger]
            m1.tracks.contains_key(t) ==> m1.tracks[t].is_midi == m3.tracks[t].is_midi,
        forall|t: TrackId| #[trigger]
            m1.tracks.contains_key(t) && t != track_id ==> m1.tracks[t].notes
                == m3.tracks[t].notes,
        m1.tracks.contains_key(track_id) ==> m3.tracks[track_id].notes
            == m1.tracks[track_id].notes,
    ensures
        observe(m3) == observe(m1),
{
    lemma_observe_from_parts(m3, m1);
}

/// Observation equality when only one track was touched and its note
/// values came back as a multiset.
proof fn lemma_track_obs_multiset(m1: ProjectModel, m3: ProjectModel, track_id: TrackId)
    requires
        m1.tempo == m3.tempo,
        m1.player_time == m3.player_time,
        m1.selection == m3.selection,
        m1.key_signature == m3.key_signature,
        m1.time_signature == m3.time_signature,
        forall|t: TrackId| m1.tracks.contains_key(t) <==> #[trigger] m3.tracks.contains_key(t),
        forall|t: TrackId| #[trigger]
            m1.tracks.contains_key(t) ==> m1.tracks[t].is_midi == m3.tracks[t].is_midi,
        forall|t: TrackId| #[trigger]
            m1.tracks.contains_key(t) && t != track_id ==> m1.tracks[t].notes
                == m3.tracks[t].notes,
        m1.tracks.contains_key(track_id) ==> note_values(m3.tracks[track_id].notes)
            == note_values(m1.tracks[track_id].notes),
    ensures
        observe(m3) == observe(m1),
{
    lemma_observe_from_parts(m3, m1);
}

/// For an edit of a single value cell, the redone state core-agrees with
/// the state right after the edit, so it observes the same.
proof fn lemma_core_eq_chain_obs(
    m: ProjectModel,
    m1: ProjectModel,
    m2: ProjectModel,
    popped2: ProjectModel,
    m3: ProjectModel,
)
    requires
        m1.tempo == m3.tempo,
        m1.player_time == m3.player_time,
        m1.selection == m3.selection,
        m1.key_signature == m3.key_signature,
        m1.time_signature == m3.time_signature,
        m3.tracks == popped2.tracks,
        popped2.tracks == m2.tracks,
        core_eq(m2, m),
        m1.tracks == m.tracks,
    ensures
        observe(m3) == observe(m1),
{
    assert forall|t: TrackId|
        m3.tracks.contains_key(t) <==> #[trigger] m1.tracks.contains_key(t) by {
        assert(m2.tracks.contains_key(t) <==> m.tracks.contains_key(t));
    }
    assert forall|t: TrackId| #[trigger]
        m3.tracks.contains_key(t) implies m3.tracks[t].is_midi == m1.tracks[t].is_midi
        && note_values(m3.tracks[t].notes) == note_values(m1.tracks[t].notes) by {
        assert(m2.tracks.contains_key(t));
        assert(m2.tracks[t].is_midi == m.tracks[t].is_midi && m2.tracks[t].notes
            == m.tracks[t].notes);
    }
    assert forall|t: TrackId|
        m1.tracks.contains_key(t) <==> #[trigger] m3.tracks.contains_key(t) by {
        assert(m2.tracks.contains_key(t) <==> m.tracks.contains_key(t));
    }
    assert forall|t: TrackId| #[trigger]
        m1.tracks.contains_key(t) implies m3.tracks[t].is_midi == m1.tracks[t].is_midi
        && note_values(m3.tracks[t].notes) == note_values(m1.tracks[t].notes) by {
        assert(m3.tracks.contains_key(t));
        assert(m2.tracks.contains_key(t));
        assert(m2.tracks[t].is_midi == m.tracks[t].is_midi && m2.tracks[t].notes
            == m.tracks[t].notes);
    }
    lemma_observe_from_parts(m3, m1);
}

/// Adding a note and then removing it under the key the addition issued
/// leaves the track's note list identical, key for key.
pub proof fn lemma_add_then_remove_restores(m: ProjectModel, track_id: TrackId, note: Note)
    requires
        m.inv(),
        simple_ok(m, ActionModel::AddMidiNote { track_id, note }),
    ensures
        ({
            let key = m.tracks[track_id].key_ctr as ReactiveListKey;
            let m1 = spec_perform(m, ActionModel::AddMidiNote { track_id, note });
            let m2 = spec_perform(m1, ActionModel::RemoveMidiNote { track_id, note_id: key });
            &&& simple_ok(m1, ActionModel::RemoveMidiNote { track_id, note_id: key })
            &&& m2.tracks[track_id].notes == m.tracks[track_id].notes
            &&& (forall|t: TrackId|
                m2.tracks.contains_key(t) <==> #[trigger] m.tracks.contains_key(t))
            &&& (forall|t: TrackId| #[trigger]
                m.tracks.contains_key(t) && t != track_id ==> m2.tracks[t].notes
                    == m.tracks[t].notes)
        }),
{
    let tm = m.tracks[track_id];
    let key = tm.key_ctr as ReactiveListKey;
    let m1 = spec_perform(m, ActionModel::AddMidiNote { track_id, note });
    lemma_do_action_inv(m, ActionModel::AddMidiNote { track_id, note }, ActionType::Normal);
    let n1 = m1.tracks[track_id].notes;
    assert(n1 == tm.notes.push((key, note)));
    assert(n1[n1.len() - 1].0 == key);
    assert(has_key(n1, key));
    let idx = key_index(n1, key);
    if idx != n1.len() - 1 {
        assert(m1.tracks.contains_key(track_id));
        assert(n1[idx].0 < n1[n1.len() - 1].0);
    }
    assert(idx == n1.len() - 1);
    let m2 = spec_perform(m1, ActionModel::RemoveMidiNote { track_id, note_id: key });
    assert(m2.tracks[track_id].notes == n1.remove(idx));
    assert(m2.tracks[track_id].notes =~= tm.notes);
}

} // verus!
