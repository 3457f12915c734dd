//! The project and its undo/redo action engine.
//!
//! Every edit goes through [`Project::perform_action`]: the action is
//! executed, its inverse is synthesized from the state it replaces, and
//! the inverse is pushed onto the undo stack (clearing the redo stack).
//! `undo` pops and executes, collecting fresh inverses on the redo stack,
//! and chains transparently through actions that undo automatically (time
//! cursor moves and selection changes); `redo` is symmetric.
//!
//! The whole engine is specified against [`ProjectModel`], a mathematical
//! snapshot of the project, and the executable methods are proved to
//! follow the spec-level transition functions exactly.

use vstd::prelude::*;

use crate::midi::Note;
use crate::midi::Time;
use crate::music::KeyMode;
use crate::music::KeySignature;
use crate::music::TimeSignature;
use crate::reactive::Reactive;
use crate::reactive::ReactiveStore;
use crate::reactive::StoreModel;
use crate::reactive::notified;
use crate::reactive_list::ListModel;
use crate::reactive_list::notified_with_key;
use crate::reactive_list::ReactiveListKey;
use crate::reactive_list::has_key;
use crate::reactive_list::key_index;
use crate::selection::Selection;
use crate::selection::SelectionView;
use crate::track::TrackGroup;
use crate::track::TrackId;
use crate::track::TrackType;

verus! {

/// Descriptive names of a project.
pub struct ProjectMeta {
    pub name: String,
    pub description: String,
    pub version: String,
}

/// A reversible edit of the project.
pub enum Action {
    /// Several actions performed as one undoable step.
    Group(Vec<Action>),
    SetSelection(Selection),
    MoveTimeCursor(Time),
    ChangeTempo(u32),
    AddMidiNote { track_id: TrackId, note: Note },
    RemoveMidiNote { track_id: TrackId, note_id: ReactiveListKey },
    ModifyMidiNote { track_id: TrackId, note_id: ReactiveListKey, new_note: Note },
}

/// Mathematical form of an [`Action`].
#[verifier::ext_equal]
pub ghost enum ActionModel {
    Group(Seq<ActionModel>),
    SetSelection(SelectionView),
    MoveTimeCursor(Time),
    ChangeTempo(u32),
    AddMidiNote { track_id: TrackId, note: Note },
    RemoveMidiNote { track_id: TrackId, note_id: ReactiveListKey },
    ModifyMidiNote { track_id: TrackId, note_id: ReactiveListKey, new_note: Note },
}

/// The models of a sequence of actions, in order.
pub open spec fn views_of(s: Seq<Action>) -> Seq<ActionModel>
    decreases s,
{
    if s.len() == 0 {
        Seq::empty()
    } else {
        seq![s[0]@] + views_of(s.drop_first())
    }
}

/// [`views_of`] maps the view over the sequence, element by element.
pub proof fn lemma_views_of(s: Seq<Action>)
    ensures
        views_of(s).len() == s.len(),
        forall|i: int| 0 <= i < s.len() ==> views_of(s)[i] == s[i]@,
    decreases s.len(),
{
    if s.len() > 0 {
        lemma_views_of(s.drop_first());
        assert(views_of(s) == seq![s[0]@] + views_of(s.drop_first()));
        assert forall|i: int| 0 <= i < s.len() implies views_of(s)[i] == s[i]@ by {
            if i > 0 {
                assert(views_of(s.drop_first())[i - 1] == s.drop_first()[i - 1]@);
            }
        }
    }
}

impl View for Action {
    type V = ActionModel;

    open spec fn view(&self) -> ActionModel
        decreases self,
    {
        match self {
            Action::Group(actions) => ActionModel::Group(views_of(actions@)),
            Action::SetSelection(s) => ActionModel::SetSelection(s@),
            Action::MoveTimeCursor(t) => ActionModel::MoveTimeCursor(*t),
            Action::ChangeTempo(v) => ActionModel::ChangeTempo(*v),
            Action::AddMidiNote { track_id, note } => ActionModel::AddMidiNote {
                track_id: *track_id,
                note: *note,
            },
            Action::RemoveMidiNote { track_id, note_id } => ActionModel::RemoveMidiNote {
                track_id: *track_id,
                note_id: *note_id,
            },
            Action::ModifyMidiNote { track_id, note_id, new_note } => ActionModel::ModifyMidiNote {
                track_id: *track_id,
                note_id: *note_id,
                new_note: *new_note,
            },
        }
    }
}

/// How an action is being executed: as a new edit, or replayed by undo or
/// redo. This decides which stack receives the synthesized inverse.
#[derive(Clone, Copy)]
pub enum ActionType {
    Normal,
    Undo,
    Redo,
}

/// Mathematical state of one track: its kind, its notes and its key
/// counter.
#[verifier::ext_equal]
pub ghost struct TrackModel {
    pub is_midi: bool,
    pub notes: Seq<(ReactiveListKey, Note)>,
    pub key_ctr: nat,
}

/// Mathematical state of a project.
#[verifier::ext_equal]
pub ghost struct ProjectModel {
    pub tempo: u32,
    pub player_time: Time,
    pub selection: SelectionView,
    pub key_signature: KeySignature,
    pub time_signature: TimeSignature,
    pub tracks: Map<TrackId, TrackModel>,
    pub undo_stack: Seq<ActionModel>,
    pub redo_stack: Seq<ActionModel>,
}

impl ProjectModel {
    /// Model invariant: per track, note keys grow strictly in insertion
    /// order and stay below the key counter, and non-MIDI tracks hold no
    /// notes.
    pub open spec fn inv(self) -> bool {
        forall|t: TrackId| #[trigger] self.tracks.contains_key(t) ==> {
            let tm = self.tracks[t];
            &&& (forall|i: int, j: int|
                0 <= i < j < tm.notes.len() ==> (#[trigger] tm.notes[i]).0 < (
                #[trigger] tm.notes[j]).0)
            &&& (forall|i: int| 0 <= i < tm.notes.len() ==> (#[trigger] tm.notes[i]).0 < tm.key_ctr)
            &&& (!tm.is_midi ==> tm.notes.len() == 0)
        }
    }
}

/// Whether undo and redo chain transparently through this action.
pub open spec fn auto_undoes(a: ActionModel) -> bool {
    match a {
        ActionModel::MoveTimeCursor(_) => true,
        ActionModel::SetSelection(_) => true,
        _ => false,
    }
}

/// Pushes a synthesized inverse onto the stack chosen by `mode`; a new
/// edit clears the redo stack.
pub open spec fn handle_inverse(m: ProjectModel, inv: ActionModel, mode: ActionType) -> ProjectModel {
    match mode {
        ActionType::Normal => ProjectModel {
            undo_stack: m.undo_stack.push(inv),
            redo_stack: Seq::empty(),
            ..m
        },
        ActionType::Undo => ProjectModel { redo_stack: m.redo_stack.push(inv), ..m },
        ActionType::Redo => ProjectModel { undo_stack: m.undo_stack.push(inv), ..m },
    }
}

/// Executes one non-group action and synthesizes its inverse, without
/// touching the stacks.
pub open spec fn apply_simple(m: ProjectModel, a: ActionModel) -> (ProjectModel, ActionModel)
    recommends
        !(a is Group),
{
    match a {
        ActionModel::SetSelection(s) => (
            ProjectModel { selection: s, ..m },
            ActionModel::SetSelection(m.selection),
        ),
        ActionModel::MoveTimeCursor(t) => (
            ProjectModel { player_time: t, ..m },
            ActionModel::MoveTimeCursor(m.player_time),
        ),
        ActionModel::ChangeTempo(v) => (
            ProjectModel { tempo: v, ..m },
            ActionModel::ChangeTempo(m.tempo),
        ),
        ActionModel::AddMidiNote { track_id, note } => {
            let tm = m.tracks[track_id];
            let key = tm.key_ctr as ReactiveListKey;
            let tm2 = TrackModel {
                notes: tm.notes.push((key, note)),
                key_ctr: tm.key_ctr + 1,
                ..tm
            };
            (
                ProjectModel { tracks: m.tracks.insert(track_id, tm2), ..m },
                ActionModel::RemoveMidiNote { track_id, note_id: key },
            )
        },
        ActionModel::RemoveMidiNote { track_id, note_id } => {
            let tm = m.tracks[track_id];
            let idx = key_index(tm.notes, note_id);
            let note = tm.notes[idx].1;
            let tm2 = TrackModel { notes: tm.notes.remove(idx), ..tm };
            (
                ProjectModel { tracks: m.tracks.insert(track_id, tm2), ..m },
                ActionModel::AddMidiNote { track_id, note },
            )
        },
        ActionModel::ModifyMidiNote { track_id, note_id, new_note } => {
            let tm = m.tracks[track_id];
            let idx = key_index(tm.notes, note_id);
            let old_note = tm.notes[idx].1;
            let tm2 = TrackModel { notes: tm.notes.update(idx, (note_id, new_note)), ..tm };
            (
                ProjectModel { tracks: m.tracks.insert(track_id, tm2), ..m },
                ActionModel::ModifyMidiNote { track_id, note_id, new_note: old_note },
            )
        },
        ActionModel::Group(_) => (m, a),
    }
}

/// Whether one non-group action can be executed in state `m` without
/// violating the engine's contracts.
pub open spec fn simple_ok(m: ProjectModel, a: ActionModel) -> bool {
    match a {
        ActionModel::SetSelection(_) => true,
        ActionModel::MoveTimeCursor(_) => true,
        ActionModel::ChangeTempo(_) => true,
        ActionModel::AddMidiNote { track_id, .. } => {
            &&& m.tracks.contains_key(track_id)
            &&& m.tracks[track_id].is_midi
            &&& m.tracks[track_id].key_ctr < usize::MAX
        },
        ActionModel::RemoveMidiNote { track_id, note_id } => {
            &&& m.tracks.contains_key(track_id)
            &&& m.tracks[track_id].is_midi
            &&& has_key(m.tracks[track_id].notes, note_id)
        },
        ActionModel::ModifyMidiNote { track_id, note_id, .. } => {
            &&& m.tracks.contains_key(track_id)
            &&& m.tracks[track_id].is_midi
            &&& has_key(m.tracks[track_id].notes, note_id)
        },
        ActionModel::Group(_) => false,
    }
}

/// Executes an action in `m`, recording its synthesized inverse as
/// `mode` directs. A group executes its members in order as new edits,
/// then collects the inverses they pushed — in that same order — into one
/// group inverse.
pub open spec fn do_action(m: ProjectModel, a: ActionModel, mode: ActionType) -> ProjectModel
    decreases a, 1int,
{
    match a {
        ActionModel::Group(subs) => {
            let m1 = do_subs(m, subs);
            let n = subs.len() as int;
            let invs = m1.undo_stack.subrange(m1.undo_stack.len() - n, m1.undo_stack.len() as int);
            let m2 = ProjectModel {
                undo_stack: m1.undo_stack.subrange(0, m1.undo_stack.len() - n),
                ..m1
            };
            handle_inverse(m2, ActionModel::Group(invs), mode)
        },
        _ => {
            let (m1, inv) = apply_simple(m, a);
            handle_inverse(m1, inv, mode)
        },
    }
}

/// Executes the members of a group in order, each as a new edit.
pub open spec fn do_subs(m: ProjectModel, subs: Seq<ActionModel>) -> ProjectModel
    decreases subs, 0int,
{
    if subs.len() == 0 {
        m
    } else {
        do_subs(do_action(m, subs[0], ActionType::Normal), subs.drop_first())
    }
}

/// Whether `a` can be executed in `m`: a group is checked member by
/// member, each in the state its predecessors produce.
pub open spec fn action_ok(m: ProjectModel, a: ActionModel) -> bool
    decreases a, 1int,
{
    match a {
        ActionModel::Group(subs) => subs_ok(m, subs),
        _ => simple_ok(m, a),
    }
}

/// Sequential validity of a group's members.
pub open spec fn subs_ok(m: ProjectModel, subs: Seq<ActionModel>) -> bool
    decreases subs, 0int,
{
    if subs.len() == 0 {
        true
    } else {
        action_ok(m, subs[0]) && subs_ok(do_action(m, subs[0], ActionType::Normal), subs.drop_first())
    }
}

/// The state after `perform_action`.
pub open spec fn spec_perform(m: ProjectModel, a: ActionModel) -> ProjectModel {
    do_action(m, a, ActionType::Normal)
}

/// The state after at most `fuel` undo steps: each step pops the top
/// inverse and executes it, and the chain continues while the popped
/// action undoes automatically.
pub open spec fn spec_undo_steps(m: ProjectModel, fuel: nat) -> ProjectModel
    decreases fuel,
{
    if fuel == 0 || m.undo_stack.len() == 0 {
        m
    } else {
        let a = m.undo_stack.last();
        let popped = ProjectModel {
            undo_stack: m.undo_stack.drop_last(),
            ..m
        };
        let m1 = do_action(popped, a, ActionType::Undo);
        if auto_undoes(a) {
            spec_undo_steps(m1, (fuel - 1) as nat)
        } else {
            m1
        }
    }
}

/// Validity of the undo chain of at most `fuel` steps.
pub open spec fn undo_steps_ok(m: ProjectModel, fuel: nat) -> bool
    decreases fuel,
{
    if fuel == 0 || m.undo_stack.len() == 0 {
        true
    } else {
        let a = m.undo_stack.last();
        let popped = ProjectModel {
            undo_stack: m.undo_stack.drop_last(),
            ..m
        };
        &&& action_ok(popped, a)
        &&& (auto_undoes(a) ==> undo_steps_ok(
            do_action(popped, a, ActionType::Undo),
            (fuel - 1) as nat,
        ))
    }
}

/// The state after `undo`.
pub open spec fn spec_undo(m: ProjectModel) -> ProjectModel {
    spec_undo_steps(m, m.undo_stack.len())
}

/// Validity of one `undo` call.
pub open spec fn spec_undo_ok(m: ProjectModel) -> bool {
    undo_steps_ok(m, m.undo_stack.len())
}

/// The state after the chaining part of `redo`: while the top of the redo
/// stack undoes automatically, pop and execute it.
pub open spec fn spec_redo_autos(m: ProjectModel, fuel: nat) -> ProjectModel
    decreases fuel,
{
    if fuel == 0 || m.redo_stack.len() == 0 || !auto_undoes(m.redo_stack.last()) {
        m
    } else {
        let a = m.redo_stack.last();
        let popped = ProjectModel {
            redo_stack: m.redo_stack.drop_last(),
            ..m
        };
        spec_redo_autos(do_action(popped, a, ActionType::Redo), (fuel - 1) as nat)
    }
}

/// Validity of the chaining part of `redo`.
pub open spec fn redo_autos_ok(m: ProjectModel, fuel: nat) -> bool
    decreases fuel,
{
    if fuel == 0 || m.redo_stack.len() == 0 || !auto_undoes(m.redo_stack.last()) {
        true
    } else {
        let a = m.redo_stack.last();
        let popped = ProjectModel {
            redo_stack: m.redo_stack.drop_last(),
            ..m
        };
        &&& action_ok(popped, a)
        &&& redo_autos_ok(do_action(popped, a, ActionType::Redo), (fuel - 1) as nat)
    }
}

/// The state after `redo`: one unconditional step, then auto-chaining.
pub open spec fn spec_redo(m: ProjectModel) -> ProjectModel {
    if m.redo_stack.len() == 0 {
        spec_redo_autos(m, m.redo_stack.len())
    } else {
        let a = m.redo_stack.last();
        let popped = ProjectModel {
            redo_stack: m.redo_stack.drop_last(),
            ..m
        };
        let m1 = do_action(popped, a, ActionType::Redo);
        spec_redo_autos(m1, m1.redo_stack.len())
    }
}

/// Validity of one `redo` call.
pub open spec fn spec_redo_ok(m: ProjectModel) -> bool {
    if m.redo_stack.len() == 0 {
        true
    } else {
        let a = m.redo_stack.last();
        let popped = ProjectModel {
            redo_stack: m.redo_stack.drop_last(),
            ..m
        };
        &&& action_ok(popped, a)
        &&& {
            let m1 = do_action(popped, a, ActionType::Redo);
            redo_autos_ok(m1, m1.redo_stack.len())
        }
    }
}

/// How one executed action reshapes the stacks: a new edit grows the undo
/// stack by exactly one inverse and keeps what was below; a replay by
/// undo leaves the undo stack as it found it; a replay by redo never
/// grows the redo stack.
pub proof fn lemma_do_action_stack(m: ProjectModel, a: ActionModel, mode: ActionType)
    ensures
        mode is Normal ==> {
            let m2 = do_action(m, a, mode);
            &&& m2.undo_stack.len() == m.undo_stack.len() + 1
            &&& m2.undo_stack.subrange(0, m.undo_stack.len() as int) == m.undo_stack
            &&& m2.redo_stack.len() == 0
        },
        mode is Undo ==> do_action(m, a, mode).undo_stack == m.undo_stack,
        mode is Redo ==> {
            let m2 = do_action(m, a, mode);
            &&& m2.undo_stack.len() == m.undo_stack.len() + 1
            &&& m2.redo_stack.len() <= m.redo_stack.len()
        },
    decreases a, 1int,
{
    match a {
        ActionModel::Group(subs) => {
            lemma_do_subs_stack(m, subs);
            let m1 = do_subs(m, subs);
            let n = subs.len() as int;
            assert(m1.undo_stack.subrange(0, m1.undo_stack.len() - n) == m.undo_stack);
            if mode is Normal {
                let m2 = do_action(m, a, mode);
                assert(m2.undo_stack.subrange(0, m.undo_stack.len() as int) =~= m.undo_stack);
            }
        },
        _ => {
            if mode is Normal {
                let m2 = do_action(m, a, mode);
                assert(m2.undo_stack.subrange(0, m.undo_stack.len() as int) =~= m.undo_stack);
            }
        },
    }
}

/// Executing a group's members in order grows the undo stack by one
/// inverse per member and keeps what was below.
pub proof fn lemma_do_subs_stack(m: ProjectModel, subs: Seq<ActionModel>)
    ensures
        do_subs(m, subs).undo_stack.len() == m.undo_stack.len() + subs.len(),
        do_subs(m, subs).undo_stack.subrange(0, m.undo_stack.len() as int) == m.undo_stack,
        subs.len() > 0 ==> do_subs(m, subs).redo_stack.len() == 0,
        subs.len() == 0 ==> do_subs(m, subs).redo_stack == m.redo_stack,
    decreases subs, 0int,
{
    if subs.len() == 0 {
        assert(do_subs(m, subs).undo_stack.subrange(0, m.undo_stack.len() as int)
            =~= m.undo_stack);
    } else {
        lemma_do_action_stack(m, subs[0], ActionType::Normal);
        let m1 = do_action(m, subs[0], ActionType::Normal);
        lemma_do_subs_stack(m1, subs.drop_first());
        let mend = do_subs(m, subs);
        assert(mend.undo_stack.subrange(0, m1.undo_stack.len() as int).subrange(
            0,
            m.undo_stack.len() as int,
        ) =~= mend.undo_stack.subrange(0, m.undo_stack.len() as int));
    }
}

/// What one executed non-group edit delivers: one notification record
/// per subscriber current on the touched cell or clip stream, in
/// subscription order, carrying the new value or key; the subscriber
/// lists themselves do not change. A group says nothing here — each of
/// its members is executed as an edit of its own.
pub open spec fn action_notified(pre: Project, post: Project, a: ActionModel) -> bool {
    match a {
        ActionModel::ChangeTempo(v) => {
            &&& notified(
                pre.tempo_store().log,
                post.tempo_store().log,
                pre.tempo_store().cells[pre.tempo_cell()].subs,
                v,
            )
            &&& post.tempo_store().cells[pre.tempo_cell()].subs == pre.tempo_store().cells[
                pre.tempo_cell()].subs
        },
        ActionModel::MoveTimeCursor(t) => {
            &&& notified(
                pre.time_store().log,
                post.time_store().log,
                pre.time_store().cells[pre.time_cell()].subs,
                t,
            )
            &&& post.time_store().cells[pre.time_cell()].subs == pre.time_store().cells[
                pre.time_cell()].subs
        },
        ActionModel::SetSelection(_) => {
            &&& notified(
                pre.selection_store().log,
                post.selection_store().log,
                pre.selection_store().cells[pre.selection_cell()].subs,
                post.selection_store().cells[pre.selection_cell()].value,
            )
            &&& post.selection_store().cells[pre.selection_cell()].subs
                == pre.selection_store().cells[pre.selection_cell()].subs
        },
        ActionModel::AddMidiNote { track_id, .. } => {
            &&& notified_with_key(
                pre.clip(track_id).push_log,
                post.clip(track_id).push_log,
                pre.clip(track_id).push_subs,
                pre.clip(track_id).key_ctr as ReactiveListKey,
            )
            &&& post.clip(track_id).push_subs == pre.clip(track_id).push_subs
            &&& post.clip(track_id).remove_subs == pre.clip(track_id).remove_subs
            &&& post.clip(track_id).remove_log == pre.clip(track_id).remove_log
        },
        ActionModel::RemoveMidiNote { track_id, note_id } => {
            &&& notified_with_key(
                pre.clip(track_id).remove_log,
                post.clip(track_id).remove_log,
                pre.clip(track_id).remove_subs,
                note_id,
            )
            &&& post.clip(track_id).push_subs == pre.clip(track_id).push_subs
            &&& post.clip(track_id).remove_subs == pre.clip(track_id).remove_subs
            &&& post.clip(track_id).push_log == pre.clip(track_id).push_log
        },
        ActionModel::ModifyMidiNote { track_id, note_id, new_note } => {
            let entries = pre.clip(track_id).items;
            let hid = entries[key_index(entries, note_id)].1.id();
            &&& notified(
                pre.note_store().log,
                post.note_store().log,
                pre.note_store().cells[hid].subs,
                new_note,
            )
            &&& post.note_store().cells[hid].subs == pre.note_store().cells[hid].subs
        },
        ActionModel::Group(_) => true,
    }
}

/// No reactive store is touched: values, subscribers and logs all stay.
pub open spec fn same_stores(pre: Project, post: Project) -> bool {
    &&& post.tempo_store() == pre.tempo_store()
    &&& post.time_store() == pre.time_store()
    &&& post.selection_store() == pre.selection_store()
    &&& post.note_store() == pre.note_store()
    &&& (forall|t: TrackId| #[trigger] post.clip(t) == pre.clip(t))
}

/// The loaded project: its reactive state cells, its tracks, and the two
/// action stacks of the undo engine.
pub struct Project {
    pub meta: ProjectMeta,
    pub selection_cells: ReactiveStore<Selection>,
    pub selection: Reactive<Selection>,
    pub tempo_cells: ReactiveStore<u32>,
    pub tempo: Reactive<u32>,
    pub time_cells: ReactiveStore<Time>,
    pub player_time: Reactive<Time>,
    pub key_signature_cells: ReactiveStore<KeySignature>,
    pub key_signature: Reactive<KeySignature>,
    pub time_signature_cells: ReactiveStore<TimeSignature>,
    pub time_signature: Reactive<TimeSignature>,
    pub note_cells: ReactiveStore<Note>,
    pub tracks: TrackGroup,
    undo_stack: Vec<Action>,
    redo_stack: Vec<Action>,
}

impl View for Project {
    type V = ProjectModel;

    closed spec fn view(&self) -> ProjectModel {
        ProjectModel {
            tempo: self.tempo_cells@.cells[self.tempo.id()].value,
            player_time: self.time_cells@.cells[self.player_time.id()].value,
            selection: self.selection_cells@.cells[self.selection.id()].value@,
            key_signature: self.key_signature_cells@.cells[self.key_signature.id()].value,
            time_signature: self.time_signature_cells@.cells[self.time_signature.id()].value,
            tracks: Map::new(
                |t: TrackId| self.tracks.tracks@.contains_key(t),
                |t: TrackId| TrackModel {
                    is_midi: self.tracks.tracks@[t].is_midi(),
                    notes: self.tracks.tracks@[t].notes_view(self.note_cells@),
                    key_ctr: self.tracks.tracks@[t].note_key_ctr(),
                },
            ),
            undo_stack: Seq::new(self.undo_stack@.len(), |i: int| self.undo_stack@[i]@),
            redo_stack: Seq::new(self.redo_stack@.len(), |i: int| self.redo_stack@[i]@),
        }
    }
}

impl Project {
    /// Well-formedness of the executable project: every store is
    /// well-formed, every cell handle is live in its store, and the track
    /// group is well-formed against the note-cell store.
    pub closed spec fn wf(&self) -> bool {
        &&& self.selection_cells.wf()
        &&& self.selection_cells@.cells.contains_key(self.selection.id())
        &&& self.tempo_cells.wf()
        &&& self.tempo_cells@.cells.contains_key(self.tempo.id())
        &&& self.time_cells.wf()
        &&& self.time_cells@.cells.contains_key(self.player_time.id())
        &&& self.key_signature_cells.wf()
        &&& self.key_signature_cells@.cells.contains_key(self.key_signature.id())
        &&& self.time_signature_cells.wf()
        &&& self.time_signature_cells@.cells.contains_key(self.time_signature.id())
        &&& self.note_cells.wf()
        &&& self.tracks.wf_in(self.note_cells@)
    }

    /// The tempo cell's store; its log records tempo notifications.
    pub closed spec fn tempo_store(&self) -> StoreModel<u32> {
        self.tempo_cells@
    }

    /// The slot of the tempo cell in [`Project::tempo_store`].
    pub closed spec fn tempo_cell(&self) -> nat {
        self.tempo.id()
    }

    /// The time cell's store; its log records cursor notifications.
    pub closed spec fn time_store(&self) -> StoreModel<Time> {
        self.time_cells@
    }

    /// The slot of the cursor cell in [`Project::time_store`].
    pub closed spec fn time_cell(&self) -> nat {
        self.player_time.id()
    }

    /// The selection cell's store; its log records selection
    /// notifications.
    pub closed spec fn selection_store(&self) -> StoreModel<Selection> {
        self.selection_cells@
    }

    /// The slot of the selection cell in [`Project::selection_store`].
    pub closed spec fn selection_cell(&self) -> nat {
        self.selection.id()
    }

    /// The note-cell store; its log records note-content notifications.
    pub closed spec fn note_store(&self) -> StoreModel<Note> {
        self.note_cells@
    }

    /// The note list of one track; its logs record the push and remove
    /// notifications of that track's clip.
    pub closed spec fn clip(&self, t: TrackId) -> ListModel<Reactive<Note>> {
        self.tracks.tracks@[t].clip_list()
    }

    /// A well-formed project's model satisfies the model invariant.
    pub proof fn lemma_wf_inv(&self)
        requires
            self.wf(),
        ensures
            self@.inv(),
    {
        assert forall|t: TrackId| #[trigger] self@.tracks.contains_key(t) implies {
            let tm = self@.tracks[t];
            &&& (forall|i: int, j: int|
                0 <= i < j < tm.notes.len() ==> (#[trigger] tm.notes[i]).0 < (
                #[trigger] tm.notes[j]).0)
            &&& (forall|i: int| 0 <= i < tm.notes.len() ==> (#[trigger] tm.notes[i]).0 < tm.key_ctr)
            &&& (!tm.is_midi ==> tm.notes.len() == 0)
        } by {
            let track = self.tracks.tracks@[t];
            assert(track.wf_in(self.note_cells@));
            let tm = self@.tracks[t];
            assert forall|i: int, j: int|
                0 <= i < j < tm.notes.len() implies (#[trigger] tm.notes[i]).0 < (
            #[trigger] tm.notes[j]).0 by {
                assert(tm.notes[i].0 == track.note_entries()[i].0);
                assert(tm.notes[j].0 == track.note_entries()[j].0);
            }
            assert forall|i: int|
                0 <= i < tm.notes.len() implies (#[trigger] tm.notes[i]).0 < tm.key_ctr by {
                assert(tm.notes[i].0 == track.note_entries()[i].0);
            }
        }
    }

    /// A fresh project: common time, 120 beats per minute, the cursor at
    /// zero, nothing selected, one empty MIDI track under id zero, and
    /// empty undo and redo stacks.
    pub fn new() -> (r: Self)
        ensures
            r.wf(),
            r@.tempo == 120,
            r@.player_time == 0,
            r@.selection == SelectionView::Empty,
            r@.key_signature == (KeySignature { root: 0, mode: KeyMode::Major }),
            r@.time_signature.spec_numerator() == 4,
            r@.time_signature.spec_denominator() == 4,
            r@.tracks.contains_key(0),
            r@.tracks[0].is_midi,
            r@.tracks[0].notes == Seq::<(ReactiveListKey, Note)>::empty(),
            r@.tracks[0].key_ctr == 0,
            forall|t: TrackId| #[trigger] r@.tracks.contains_key(t) ==> t == 0,
            r@.undo_stack == Seq::<ActionModel>::empty(),
            r@.redo_stack == Seq::<ActionModel>::empty(),
    {
        let mut selection_cells: ReactiveStore<Selection> = ReactiveStore::new();
        let selection = Reactive::new(&mut selection_cells, Selection::new());
        let mut tempo_cells: ReactiveStore<u32> = ReactiveStore::new();
        let tempo = Reactive::new(&mut tempo_cells, 120);
        let mut time_cells: ReactiveStore<Time> = ReactiveStore::new();
        let player_time = Reactive::new(&mut time_cells, 0);
        let mut key_signature_cells: ReactiveStore<KeySignature> = ReactiveStore::new();
        let key_signature = Reactive::new(
            &mut key_signature_cells,
            KeySignature::new(0, KeyMode::Major),
        );
        let mut time_signature_cells: ReactiveStore<TimeSignature> = ReactiveStore::new();
        let time_signature = Reactive::new(&mut time_signature_cells, TimeSignature::common());
        let note_cells: ReactiveStore<Note> = ReactiveStore::new();
        let mut tracks = TrackGroup::new();
        tracks.add_new(TrackType::Midi);

        let r = Project {
            meta: ProjectMeta {
                name: String::from_str("Untitled"),
                description: String::from_str("No description"),
                version: String::from_str("0.0.1"),
            },
            selection_cells,
            selection,
            tempo_cells,
            tempo,
            time_cells,
            player_time,
            key_signature_cells,
            key_signature,
            time_signature_cells,
            time_signature,
            note_cells,
            tracks,
            undo_stack: Vec::new(),
            redo_stack: Vec::new(),
        };
        proof {
            assert(r@.tracks[0].notes =~= Seq::<(ReactiveListKey, Note)>::empty());
            assert(r@.undo_stack =~= Seq::<ActionModel>::empty());
            assert(r@.redo_stack =~= Seq::<ActionModel>::empty());
        }
        r
    }

    /// Records the inverse of an action that was just executed: a new edit
    /// pushes onto the undo stack and clears the redo stack; an undone
    /// action pushes onto the redo stack; a redone one back onto the undo
    /// stack.
    pub fn handle_inverse_action(&mut self, action: Action, type_of_action_just_performed: ActionType)
        requires
            old(self).wf(),
        ensures
            final(self).wf(),
            final(self)@ == handle_inverse(old(self)@, action@, type_of_action_just_performed),
            same_stores(*old(self), *final(self)),
    {
        let ghost a = action@;
        match type_of_action_just_performed {
            ActionType::Normal => {
                self.undo_stack.push(action);
                self.redo_stack.clear();
            },
            ActionType::Undo => {
                self.redo_stack.push(action);
            },
            ActionType::Redo => {
                self.undo_stack.push(action);
            },
        }
        proof {
            assert(self@ =~~= handle_inverse(old(self)@, a, type_of_action_just_performed));
        }
    }

    /// Performs a new edit: executes `action` and records its inverse on
    /// the undo stack, clearing the redo stack.
    pub fn perform_action(&mut self, action: Action)
        requires
            old(self).wf(),
            action_ok(old(self)@, action@),
        ensures
            final(self).wf(),
            final(self)@ == spec_perform(old(self)@, action@),
            action_notified(*old(self), *final(self), action@),
    {
        self.__perform_action(action, ActionType::Normal);
    }

    fn __perform_action(&mut self, action: Action, type_: ActionType)
        requires
            old(self).wf(),
            action_ok(old(self)@, action@),
        ensures
            final(self).wf(),
            final(self)@ == do_action(old(self)@, action@, type_),
            action_notified(*old(self), *final(self), action@),
        decreases action, 1int,
    {
        let ghost action0 = action;
        match action {
            Action::MoveTimeCursor(t) => {
                self.exec_move_time_cursor(t, type_);
            },
            Action::ChangeTempo(new_tempo) => {
                self.exec_change_tempo(new_tempo, type_);
            },
            Action::SetSelection(sel) => {
                self.exec_set_selection(sel, type_);
            },
            Action::AddMidiNote { track_id, note } => {
                self.exec_add_midi_note(track_id, note, type_);
            },
            Action::RemoveMidiNote { track_id, note_id } => {
                self.exec_remove_midi_note(track_id, note_id, type_);
            },
            Action::ModifyMidiNote { track_id, note_id, new_note } => {
                self.exec_modify_midi_note(track_id, note_id, new_note, type_);
            },
            Action::Group(actions) => {
                proof {
                    assert(action0->Group_0 == actions);
                    assert(decreases_to!(action0 => action0->Group_0));
                }
                self.exec_group(actions, type_);
            },
        }
    }

    fn exec_move_time_cursor(&mut self, t: Time, type_: ActionType)
        requires
            old(self).wf(),
        ensures
            final(self).wf(),
            final(self)@ == do_action(old(self)@, ActionModel::MoveTimeCursor(t), type_),
            action_notified(*old(self), *final(self), ActionModel::MoveTimeCursor(t)),
    {
        let ghost a = ActionModel::MoveTimeCursor(t);
        let ghost m0 = self@;

        let prev = self.player_time.replace(&mut self.time_cells, t);
        proof {
            assert(self@ =~~= (ProjectModel { player_time: t, ..m0 }));
        }
        self.handle_inverse_action(Action::MoveTimeCursor(prev), type_);
        proof {
            assert(self@ =~~= do_action(m0, a, type_));
        }
    }

    fn exec_change_tempo(&mut self, new_tempo: u32, type_: ActionType)
        requires
            old(self).wf(),
        ensures
            final(self).wf(),
            final(self)@ == do_action(old(self)@, ActionModel::ChangeTempo(new_tempo), type_),
            action_notified(*old(self), *final(self), ActionModel::ChangeTempo(new_tempo)),
    {
        let ghost a = ActionModel::ChangeTempo(new_tempo);
        let ghost m0 = self@;

        let prev = self.tempo.replace(&mut self.tempo_cells, new_tempo);
        proof {
            assert(self@ =~~= (ProjectModel { tempo: new_tempo, ..m0 }));
        }
        self.handle_inverse_action(Action::ChangeTempo(prev), type_);
        proof {
            assert(self@ =~~= do_action(m0, a, type_));
        }
    }

    fn exec_set_selection(&mut self, sel: Selection, type_: ActionType)
        requires
            old(self).wf(),
        ensures
            final(self).wf(),
            final(self)@ == do_action(old(self)@, ActionModel::SetSelection(sel@), type_),
            action_notified(*old(self), *final(self), ActionModel::SetSelection(sel@)),
    {
        let ghost a = ActionModel::SetSelection(sel@);
        let ghost m0 = self@;

        let ghost sv = sel@;
        let prev = self.selection.replace(&mut self.selection_cells, sel);
        proof {
            assert(self@ =~~= (ProjectModel { selection: sv, ..m0 }));
            assert(prev@ == m0.selection);
        }
        self.handle_inverse_action(Action::SetSelection(prev), type_);
        proof {
            assert(self@ =~~= do_action(m0, a, type_));
        }
    }

    fn exec_add_midi_note(&mut self, track_id: TrackId, note: Note, type_: ActionType)
        requires
            old(self).wf(),
            simple_ok(old(self)@, ActionModel::AddMidiNote { track_id, note }),
        ensures
            final(self).wf(),
            final(self)@ == do_action(
                old(self)@,
                ActionModel::AddMidiNote { track_id, note },
                type_,
            ),
            action_notified(
                *old(self),
                *final(self),
                ActionModel::AddMidiNote { track_id, note },
            ),
    {
        let ghost a = ActionModel::AddMidiNote { track_id, note };
        let ghost m0 = self@;

        proof {
            assert(m0.tracks.contains_key(track_id));
            assert(self.tracks.tracks@.contains_key(track_id));
        }
        let mut track = match self.tracks.take(track_id) {
            Some(t) => t,
            None => unreached(),
        };
        let ghost pre_store = self.note_cells@;
        let key_opt = track.push_note(&mut self.note_cells, note);
        let key = match key_opt {
            Some(k) => k,
            None => unreached(),
        };
        self.tracks.append(track);
        proof {
            let ghost g0 = old(self).tracks;
            assert(self.tracks.tracks@ =~= g0.tracks@.insert(
                track_id,
                self.tracks.tracks@[track_id],
            ));
            let hid = self.tracks.tracks@[track_id].note_entries().last().1.id();
            assert forall|u: TrackId|
                #[trigger] g0.tracks@.contains_key(u) && u != track_id implies {
                &&& forall|i: int|
                    0 <= i < g0.tracks@[u].note_entries().len()
                        ==> self.note_cells@.cells.contains_key(
                        (#[trigger] g0.tracks@[u].note_entries()[i]).1.id(),
                    )
            } by {
                assert(g0.tracks@[u].wf_in(pre_store));
                assert forall|i: int|
                    0 <= i < g0.tracks@[u].note_entries().len()
                        implies self.note_cells@.cells.contains_key(
                    (#[trigger] g0.tracks@[u].note_entries()[i]).1.id(),
                ) by {
                    let id = g0.tracks@[u].note_entries()[i].1.id();
                    assert(pre_store.cells.contains_key(id));
                }
            }
            TrackGroup::lemma_wf_in_update(
                &g0,
                &self.tracks,
                track_id,
                pre_store,
                self.note_cells@,
            );
            assert forall|u: TrackId|
                #[trigger] g0.tracks@.contains_key(u) && u != track_id implies
                self.tracks.tracks@[u].notes_view(self.note_cells@) == g0.tracks@[
                u].notes_view(pre_store) by {
                g0.tracks@[u].lemma_notes_view_frame(pre_store, self.note_cells@);
            }
            let tm = m0.tracks[track_id];
            let tm2 = TrackModel {
                notes: tm.notes.push((key, note)),
                key_ctr: tm.key_ctr + 1,
                ..tm
            };
            assert(self@.tracks =~~= m0.tracks.insert(track_id, tm2));
            assert(self@ =~~= (ProjectModel {
                tracks: m0.tracks.insert(track_id, tm2),
                ..m0
            }));
        }
        self.handle_inverse_action(
            Action::RemoveMidiNote { track_id, note_id: key },
            type_,
        );
        proof {
            assert(self@ =~~= do_action(m0, a, type_));
        }
    }

    fn exec_remove_midi_note(
        &mut self,
        track_id: TrackId,
        note_id: ReactiveListKey,
        type_: ActionType,
    )
        requires
            old(self).wf(),
            simple_ok(old(self)@, ActionModel::RemoveMidiNote { track_id, note_id }),
        ensures
            final(self).wf(),
            final(self)@ == do_action(
                old(self)@,
                ActionModel::RemoveMidiNote { track_id, note_id },
                type_,
            ),
            action_notified(
                *old(self),
                *final(self),
                ActionModel::RemoveMidiNote { track_id, note_id },
            ),
    {
        let ghost a = ActionModel::RemoveMidiNote { track_id, note_id };
        let ghost m0 = self@;

        proof {
            assert(m0.tracks.contains_key(track_id));
            assert(self.tracks.tracks@.contains_key(track_id));
        }
        let mut track = match self.tracks.take(track_id) {
            Some(t) => t,
            None => unreached(),
        };
        proof {
            track.lemma_key_lookup(self.note_cells@, note_id);
        }
        let note = match track.get_note_copy(&self.note_cells, note_id) {
            Some(n) => n,
            None => unreached(),
        };
        let ghost pre_store = self.note_cells@;
        track.remove_note(&mut self.note_cells, note_id);
        self.tracks.append(track);
        proof {
            let ghost g0 = old(self).tracks;
            let entries0 = g0.tracks@[track_id].note_entries();
            let idx = key_index(entries0, note_id);
            let hid = entries0[idx].1.id();
            assert(self.tracks.tracks@ =~= g0.tracks@.insert(
                track_id,
                self.tracks.tracks@[track_id],
            ));
            assert forall|u: TrackId|
                #[trigger] g0.tracks@.contains_key(u) && u != track_id implies forall|
                i: int,
            |
                0 <= i < g0.tracks@[u].note_entries().len()
                    ==> self.note_cells@.cells.contains_key(
                    (#[trigger] g0.tracks@[u].note_entries()[i]).1.id(),
                ) by {
                assert(g0.tracks@[u].wf_in(pre_store));
                assert forall|i: int|
                    0 <= i < g0.tracks@[u].note_entries().len()
                        implies self.note_cells@.cells.contains_key(
                    (#[trigger] g0.tracks@[u].note_entries()[i]).1.id(),
                ) by {
                    let id = g0.tracks@[u].note_entries()[i].1.id();
                    assert(pre_store.cells.contains_key(id));
                    assert(id != hid);
                }
            }
            assert forall|i: int|
                0 <= i < self.tracks.tracks@[track_id].note_entries().len() implies {
                let id = (
                #[trigger] self.tracks.tracks@[track_id].note_entries()[i]).1.id();
                exists|j: int|
                    0 <= j < entries0.len() && (#[trigger] entries0[j]).1.id() == id
            } by {
                let i0 = if i < idx {
                    i
                } else {
                    i + 1
                };
                assert(self.tracks.tracks@[track_id].note_entries()[i] == entries0[i0]);
            }
            TrackGroup::lemma_wf_in_update(
                &g0,
                &self.tracks,
                track_id,
                pre_store,
                self.note_cells@,
            );
            assert forall|u: TrackId|
                #[trigger] g0.tracks@.contains_key(u) && u != track_id implies
                self.tracks.tracks@[u].notes_view(self.note_cells@) == g0.tracks@[
                u].notes_view(pre_store) by {
                assert forall|i: int|
                    0 <= i < g0.tracks@[u].note_entries().len() implies {
                    let id = (#[trigger] g0.tracks@[u].note_entries()[i]).1.id();
                    &&& self.note_cells@.cells.contains_key(id)
                    &&& self.note_cells@.cells[id].value == pre_store.cells[id].value
                } by {
                    let id = g0.tracks@[u].note_entries()[i].1.id();
                    assert(pre_store.cells.contains_key(id));
                    assert(id != hid);
                }
                g0.tracks@[u].lemma_notes_view_frame(pre_store, self.note_cells@);
            }
            let tm = m0.tracks[track_id];
            let midx = key_index(tm.notes, note_id);
            assert(midx == idx);
            let tm2 = TrackModel { notes: tm.notes.remove(midx), ..tm };
            assert(self@.tracks =~~= m0.tracks.insert(track_id, tm2));
            assert(self@ =~~= (ProjectModel {
                tracks: m0.tracks.insert(track_id, tm2),
                ..m0
            }));
            assert(note == tm.notes[midx].1);
        }
        self.handle_inverse_action(Action::AddMidiNote { track_id, note }, type_);
        proof {
            assert(self@ =~~= do_action(m0, a, type_));
        }
    }

    #[verifier::rlimit(100)]
    fn exec_modify_midi_note(
        &mut self,
        track_id: TrackId,
        note_id: ReactiveListKey,
        new_note: Note,
        type_: ActionType,
    )
        requires
            old(self).wf(),
            simple_ok(old(self)@, ActionModel::ModifyMidiNote { track_id, note_id, new_note }),
        ensures
            final(self).wf(),
            final(self)@ == do_action(
                old(self)@,
                ActionModel::ModifyMidiNote { track_id, note_id, new_note },
                type_,
            ),
            action_notified(
                *old(self),
                *final(self),
                ActionModel::ModifyMidiNote { track_id, note_id, new_note },
            ),
    {
        let ghost a = ActionModel::ModifyMidiNote { track_id, note_id, new_note };
        let ghost m0 = self@;

        proof {
            assert(m0.tracks.contains_key(track_id));
            assert(self.tracks.tracks@.contains_key(track_id));
        }
        let mut track = match self.tracks.take(track_id) {
            Some(t) => t,
            None => unreached(),
        };
        proof {
            track.lemma_key_lookup(self.note_cells@, note_id);
        }
        let ghost pre_store = self.note_cells@;
        let old_note = match track.set_note(&mut self.note_cells, note_id, new_note) {
            Some(n) => n,
            None => unreached(),
        };
        self.tracks.append(track);
        proof {
            let ghost g0 = old(self).tracks;
            let entries0 = g0.tracks@[track_id].note_entries();
            let idx = key_index(entries0, note_id);
            let hid = entries0[idx].1.id();
            assert(self.tracks.tracks@ =~= g0.tracks@.insert(
                track_id,
                self.tracks.tracks@[track_id],
            ));
            assert forall|u: TrackId|
                #[trigger] g0.tracks@.contains_key(u) && u != track_id implies forall|
                i: int,
            |
                0 <= i < g0.tracks@[u].note_entries().len()
                    ==> self.note_cells@.cells.contains_key(
                    (#[trigger] g0.tracks@[u].note_entries()[i]).1.id(),
                ) by {
                assert(g0.tracks@[u].wf_in(pre_store));
                assert forall|i: int|
                    0 <= i < g0.tracks@[u].note_entries().len()
                        implies self.note_cells@.cells.contains_key(
                    (#[trigger] g0.tracks@[u].note_entries()[i]).1.id(),
                ) by {
                    let id = g0.tracks@[u].note_entries()[i].1.id();
                    assert(pre_store.cells.contains_key(id));
                }
            }
            assert forall|i: int|
                0 <= i < self.tracks.tracks@[track_id].note_entries().len() implies {
                let id = (
                #[trigger] self.tracks.tracks@[track_id].note_entries()[i]).1.id();
                exists|j: int|
                    0 <= j < entries0.len() && (#[trigger] entries0[j]).1.id() == id
            } by {
                assert(self.tracks.tracks@[track_id].note_entries()[i] == entries0[i]);
            }
            TrackGroup::lemma_wf_in_update(
                &g0,
                &self.tracks,
                track_id,
                pre_store,
                self.note_cells@,
            );
            assert forall|u: TrackId|
                #[trigger] g0.tracks@.contains_key(u) && u != track_id implies
                self.tracks.tracks@[u].notes_view(self.note_cells@) == g0.tracks@[
                u].notes_view(pre_store) by {
                assert forall|i: int|
                    0 <= i < g0.tracks@[u].note_entries().len() implies {
                    let id = (#[trigger] g0.tracks@[u].note_entries()[i]).1.id();
                    &&& self.note_cells@.cells.contains_key(id)
                    &&& self.note_cells@.cells[id].value == pre_store.cells[id].value
                } by {
                    let id = g0.tracks@[u].note_entries()[i].1.id();
                    assert(pre_store.cells.contains_key(id));
                    assert(id != hid);
                }
                g0.tracks@[u].lemma_notes_view_frame(pre_store, self.note_cells@);
            }
            let tm = m0.tracks[track_id];
            let midx = key_index(tm.notes, note_id);
            assert(midx == idx);
            let tm2 = TrackModel {
                notes: tm.notes.update(midx, (note_id, new_note)),
                ..tm
            };
            assert(self@.tracks =~~= m0.tracks.insert(track_id, tm2));
            assert(self@ =~~= (ProjectModel {
                tracks: m0.tracks.insert(track_id, tm2),
                ..m0
            }));
            assert(old_note == tm.notes[midx].1);
        }
        self.handle_inverse_action(
            Action::ModifyMidiNote { track_id, note_id, new_note: old_note },
            type_,
        );
        proof {
            assert(self@ =~~= do_action(m0, a, type_));
        }
    }

    #[verifier::loop_isolation(false)]
    fn exec_group(&mut self, actions: Vec<Action>, type_: ActionType)
        requires
            old(self).wf(),
            subs_ok(old(self)@, views_of(actions@)),
        ensures
            final(self).wf(),
            final(self)@ == do_action(old(self)@, ActionModel::Group(views_of(actions@)), type_),
        decreases actions, 0int,
    {
        let ghost a = ActionModel::Group(views_of(actions@));
        let ghost m0 = self@;
        let ghost actions0 = actions;

        let ghost subs = a->Group_0;
        proof {
            lemma_views_of(actions@);
        }
        let mut actions = actions;
        let n = actions.len();
        let ghost orig = actions@;
        proof {
            assert(subs.subrange(0, n as int) =~= subs);
            assert(actions@ =~= orig.subrange(0, n as int));
        }
        let mut idx: usize = 0;
        while idx < n
            invariant
                n == orig.len(),
                idx <= n,
                actions@ == orig.subrange(idx as int, n as int),
                subs == views_of(orig),
                subs.len() == n,
                forall|i: int| 0 <= i < n ==> subs[i] == orig[i]@,
                self.wf(),
                do_subs(self@, subs.subrange(idx as int, n as int)) == do_subs(m0, subs),
                subs_ok(self@, subs.subrange(idx as int, n as int)),
            decreases n - idx,
        {
            let act = actions.remove(0);
            proof {
                assert(act == orig[idx as int]);
                assert(act@ == subs[idx as int]);
                let rest = subs.subrange(idx as int, n as int);
                assert(rest[0] == act@);
                assert(rest.drop_first() =~= subs.subrange(idx as int + 1, n as int));
                assert(action_ok(self@, act@));
                assert(actions0@ == orig);
                assert(decreases_to!(actions0 => actions0@));
                assert(decreases_to!(actions0@ => actions0@[idx as int]));
                assert(actions0@[idx as int] == act);
                assert(decreases_to!(actions0 => act));
            }
            let ghost pre_iter = self@;
            self.__perform_action(act, ActionType::Normal);
            proof {
                let rest = subs.subrange(idx as int, n as int);
                assert(do_subs(pre_iter, rest) == do_subs(
                    self@,
                    subs.subrange(idx as int + 1, n as int),
                ));
            }
            idx = idx + 1;
            proof {
                assert(actions@ =~= orig.subrange(idx as int, n as int));
            }
        }
        proof {
            assert(subs.subrange(n as int, n as int) =~= Seq::<ActionModel>::empty());
            assert(self@ == do_subs(m0, subs));
            lemma_do_subs_stack(m0, subs);
        }
        let ghost m1 = self@;
        let mut invs_rev: Vec<Action> = Vec::new();
        let mut j: usize = 0;
        while j < n
            invariant
                j <= n,
                n <= m1.undo_stack.len(),
                self.wf(),
                invs_rev@.len() == j,
                forall|i: int| 0 <= i < j ==> (#[trigger] invs_rev@[i])@
                    == m1.undo_stack[m1.undo_stack.len() - 1 - i],
                self@ == (ProjectModel {
                    undo_stack: m1.undo_stack.subrange(0, m1.undo_stack.len() - j),
                    ..m1
                }),
            decreases n - j,
        {
            proof {
                assert(self@.undo_stack.len() == m1.undo_stack.len() - j);
                assert(self.undo_stack@.len() > 0);
            }
            let ghost pre_model = self@;
            let inv_act = match self.undo_stack.pop() {
                Some(x) => x,
                None => unreached(),
            };
            invs_rev.push(inv_act);
            j = j + 1;
            proof {
                assert(inv_act@ == pre_model.undo_stack.last());
                assert(pre_model.undo_stack == m1.undo_stack.subrange(
                    0,
                    m1.undo_stack.len() - (j - 1),
                ));
                assert(pre_model.undo_stack.last() == m1.undo_stack[m1.undo_stack.len() - j]);
                assert(self@.undo_stack =~= pre_model.undo_stack.drop_last());
                assert(self@.undo_stack =~= m1.undo_stack.subrange(
                    0,
                    m1.undo_stack.len() - j,
                ));
                assert(self@ =~~= (ProjectModel {
                    undo_stack: m1.undo_stack.subrange(0, m1.undo_stack.len() - j),
                    ..m1
                }));
            }
        }
        let mut invs: Vec<Action> = Vec::new();
        let ghost drained = invs_rev@;
        while invs_rev.len() > 0
            invariant
                invs@.len() + invs_rev@.len() == n,
                drained.len() == n,
                invs_rev@ == drained.subrange(0, invs_rev@.len() as int),
                forall|i: int| 0 <= i < n ==> (#[trigger] drained[i])@
                    == m1.undo_stack[m1.undo_stack.len() - 1 - i],
                forall|i: int| 0 <= i < invs@.len() ==> (#[trigger] invs@[i])
                    == drained[n - 1 - i],
                self.wf(),
                self@ == (ProjectModel {
                    undo_stack: m1.undo_stack.subrange(0, m1.undo_stack.len() - n as int),
                    ..m1
                }),
            decreases invs_rev@.len(),
        {
            let x = match invs_rev.pop() {
                Some(x) => x,
                None => unreached(),
            };
            invs.push(x);
            proof {
                assert(invs_rev@ =~= drained.subrange(0, invs_rev@.len() as int));
            }
        }
        proof {
            lemma_views_of(invs@);
            let invs_model = m1.undo_stack.subrange(
                m1.undo_stack.len() - n as int,
                m1.undo_stack.len() as int,
            );
            assert forall|i: int| 0 <= i < n implies views_of(invs@)[i]
                == invs_model[i] by {
                assert(invs@[i] == drained[n - 1 - i]);
                assert(drained[n - 1 - i]@ == m1.undo_stack[m1.undo_stack.len() - 1 - (n
                    - 1 - i)]);
            }
            assert(views_of(invs@) =~= invs_model);
        }
        self.handle_inverse_action(Action::Group(invs), type_);
        proof {
            assert(self@ =~~= do_action(m0, a, type_));
        }
    }

    /// How many inverses the undo stack holds.
    pub fn undo_depth(&self) -> (r: usize)
        ensures
            r == self@.undo_stack.len(),
    {
        self.undo_stack.len()
    }

    /// How many inverses the redo stack holds.
    pub fn redo_depth(&self) -> (r: usize)
        ensures
            r == self@.redo_stack.len(),
    {
        self.redo_stack.len()
    }

    /// Whether undo and redo chain transparently through this action.
    fn action_undoes_automatically(action: &Action) -> (r: bool)
        ensures
            r == auto_undoes(action@),
    {
        match action {
            Action::MoveTimeCursor(_) => true,
            Action::SetSelection(_) => true,
            _ => false,
        }
    }

    /// Pops and executes inverses from the undo stack: at least one, and
    /// then as long as the popped action undoes automatically, so that
    /// cursor moves and selection changes are skipped over transparently.
    /// Fresh inverses accumulate on the redo stack. With an empty undo
    /// stack this is a no-op.
    #[verifier::loop_isolation(false)]
    pub fn undo(&mut self)
        requires
            old(self).wf(),
            spec_undo_ok(old(self)@),
        ensures
            final(self).wf(),
            final(self)@ == spec_undo(old(self)@),
    {
        let ghost m0 = self@;
        loop
            invariant
                self.wf(),
                undo_steps_ok(self@, self@.undo_stack.len()),
                spec_undo_steps(self@, self@.undo_stack.len()) == spec_undo(m0),
            decreases self@.undo_stack.len(),
        {
            let ghost pre = self@;
            proof {
                assert(self.undo_stack@.len() == pre.undo_stack.len());
            }
            let popped = self.undo_stack.pop();
            match popped {
                Some(action) => {
                    proof {
                        assert(pre.undo_stack.len() > 0);
                        assert(action@ == pre.undo_stack.last());
                        assert(self@ =~~= (ProjectModel {
                            undo_stack: pre.undo_stack.drop_last(),
                            ..pre
                        }));
                        assert(action_ok(self@, action@));
                    }
                    let auto = Self::action_undoes_automatically(&action);
                    let ghost popped_model = self@;
                    self.__perform_action(action, ActionType::Undo);
                    proof {
                        let a_m = pre.undo_stack.last();
                        let m1 = do_action(popped_model, a_m, ActionType::Undo);
                        assert(self@ == m1);
                        lemma_do_action_stack(popped_model, a_m, ActionType::Undo);
                        assert(m1.undo_stack == pre.undo_stack.drop_last());
                        assert(spec_undo_steps(pre, pre.undo_stack.len()) == (if auto_undoes(a_m) {
                            spec_undo_steps(m1, (pre.undo_stack.len() - 1) as nat)
                        } else {
                            m1
                        }));
                        assert(undo_steps_ok(pre, pre.undo_stack.len()));
                        if auto_undoes(a_m) {
                            assert(m1.undo_stack.len() == pre.undo_stack.len() - 1);
                            assert(spec_undo_steps(self@, self@.undo_stack.len()) == spec_undo(
                                m0,
                            ));
                            assert(undo_steps_ok(self@, self@.undo_stack.len()));
                        } else {
                            assert(self@ == spec_undo(m0));
                        }
                    }
                    if !auto {
                        return ;
                    }
                },
                None => {
                    proof {
                        assert(pre.undo_stack.len() == 0);
                        assert(spec_undo_steps(pre, pre.undo_stack.len()) == pre);
                        assert(self@ =~~= pre);
                        assert(self@ == spec_undo(m0));
                    }
                    return ;
                },
            }
        }
    }

    /// Pops and executes one inverse from the redo stack, then keeps
    /// popping while the next one undoes automatically. Fresh inverses
    /// accumulate on the undo stack. With an empty redo stack this is a
    /// no-op.
    #[verifier::loop_isolation(false)]
    pub fn redo(&mut self)
        requires
            old(self).wf(),
            spec_redo_ok(old(self)@),
        ensures
            final(self).wf(),
            final(self)@ == spec_redo(old(self)@),
    {
        let ghost m0 = self@;
        let ghost pre = self@;
        proof {
            assert(self.redo_stack@.len() == pre.redo_stack.len());
        }
        let popped = self.redo_stack.pop();
        match popped {
            Some(action) => {
                proof {
                    assert(pre.redo_stack.len() > 0);
                    assert(action@ == pre.redo_stack.last());
                    assert(self@ =~~= (ProjectModel {
                        redo_stack: pre.redo_stack.drop_last(),
                        ..pre
                    }));
                    assert(action_ok(self@, action@));
                }
                let ghost popped_model = self@;
                self.__perform_action(action, ActionType::Redo);
                proof {
                    let a_m = pre.redo_stack.last();
                    let m1 = do_action(popped_model, a_m, ActionType::Redo);
                    assert(self@ == m1);
                    assert(spec_redo(m0) == spec_redo_autos(m1, m1.redo_stack.len()));
                    assert(redo_autos_ok(m1, m1.redo_stack.len()));
                }
            },
            None => {
                proof {
                    assert(pre.redo_stack.len() == 0);
                    assert(self@ =~~= pre);
                    assert(spec_redo(m0) == spec_redo_autos(self@, self@.redo_stack.len()));
                }
            },
        }
        loop
            invariant
                self.wf(),
                redo_autos_ok(self@, self@.redo_stack.len()),
                spec_redo_autos(self@, self@.redo_stack.len()) == spec_redo(m0),
            decreases self@.redo_stack.len(),
        {
            let len = self.redo_stack.len();
            if len == 0 {
                proof {
                    assert(spec_redo_autos(self@, self@.redo_stack.len()) == self@);
                }
                return ;
            }
            let auto = Self::action_undoes_automatically(&self.redo_stack[len - 1]);
            proof {
                assert(self.redo_stack@[len - 1]@ == self@.redo_stack.last());
            }
            if !auto {
                proof {
                    assert(spec_redo_autos(self@, self@.redo_stack.len()) == self@);
                }
                return ;
            }
            let ghost pre2 = self@;
            let action = match self.redo_stack.pop() {
                Some(x) => x,
                None => unreached(),
            };
            proof {
                assert(action@ == pre2.redo_stack.last());
                assert(self@ =~~= (ProjectModel {
                    redo_stack: pre2.redo_stack.drop_last(),
                    ..pre2
                }));
                assert(action_ok(self@, action@));
            }
            let ghost popped_model = self@;
            self.__perform_action(action, ActionType::Redo);
            proof {
                let a_m = pre2.redo_stack.last();
                let m1 = do_action(popped_model, a_m, ActionType::Redo);
                assert(self@ == m1);
                lemma_do_action_stack(popped_model, a_m, ActionType::Redo);
                assert(m1.redo_stack.len() <= pre2.redo_stack.len() - 1);
                assert(spec_redo_autos(pre2, pre2.redo_stack.len()) == spec_redo_autos(
                    m1,
                    (pre2.redo_stack.len() - 1) as nat,
                ));
                assert(redo_autos_ok(pre2, pre2.redo_stack.len()));
                lemma_redo_autos_fuel(
                    m1,
                    (pre2.redo_stack.len() - 1) as nat,
                    m1.redo_stack.len(),
                );
                assert(spec_redo_autos(self@, self@.redo_stack.len()) == spec_redo(m0));
                assert(redo_autos_ok(self@, self@.redo_stack.len()));
            }
        }
    }
}

/// The chaining part of redo does not read its fuel beyond the stack
/// length, so any sufficient fuel computes the same state.
pub proof fn lemma_redo_autos_fuel(m: ProjectModel, f1: nat, f2: nat)
    requires
        f1 >= m.redo_stack.len(),
        f2 >= m.redo_stack.len(),
    ensures
        spec_redo_autos(m, f1) == spec_redo_autos(m, f2),
        redo_autos_ok(m, f1) == redo_autos_ok(m, f2),
    decreases f1 + f2,
{
    if m.redo_stack.len() == 0 || !auto_undoes(m.redo_stack.last()) {
    } else {
        let a = m.redo_stack.last();
        let popped = ProjectModel { redo_stack: m.redo_stack.drop_last(), ..m };
        let m1 = do_action(popped, a, ActionType::Redo);
        lemma_do_action_stack(popped, a, ActionType::Redo);
        lemma_redo_autos_fuel(m1, (f1 - 1) as nat, (f2 - 1) as nat);
    }
}

} // verus!
