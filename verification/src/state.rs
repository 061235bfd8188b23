//! The application's state and how each user action changes it.
//!
//! `update` takes the state, a message and the editor's current text and
//! gives the next state together with what the surroundings have to do:
//! change the editor, write or remove note files, move the focus or close
//! the window.
use vstd::prelude::*;
use crate::notes::{newest_first, notes_view, sort_newest_first, Note, NoteFile, NoteView};
use crate::outside::{is_v4_uuid_text, new_note_id, now_millis};
use crate::text::{editor_text, is_blank, is_blank_text, strip_trailing_newlines, trim_text, trimmed};
use vstd::string::*;

verus! {

/// Which confirmation the user is asked for, if any.
pub enum ConfirmState {
    /// No confirmation is pending.
    Idle,
    DeleteOne(String),
    DeleteAll,
    /// Carries the identifier of the note the user wants to load.
    UnsavedWorkBeforeLoad(String),
    UnsavedWorkBeforeClear,
}

pub enum ConfirmView {
    Idle,
    DeleteOne(Seq<char>),
    DeleteAll,
    UnsavedWorkBeforeLoad(Seq<char>),
    UnsavedWorkBeforeClear,
}

impl View for ConfirmState {
    type V = ConfirmView;

    open spec fn view(&self) -> ConfirmView {
        match self {
            ConfirmState::Idle => ConfirmView::Idle,
            ConfirmState::DeleteOne(id) => ConfirmView::DeleteOne(id@),
            ConfirmState::DeleteAll => ConfirmView::DeleteAll,
            ConfirmState::UnsavedWorkBeforeLoad(id) => ConfirmView::UnsavedWorkBeforeLoad(id@),
            ConfirmState::UnsavedWorkBeforeClear => ConfirmView::UnsavedWorkBeforeClear,
        }
    }
}

/// What the user asked for.
pub enum Message {
    Save,
    Clear,
    /// A click on a note: load it, asking first when the editor holds unsaved work.
    LoadNote(String),
    ConfirmLoad(String),
    CancelLoad,
    DeleteNote(String),
    ConfirmDeleteNote(String),
    DeleteAllNotes,
    ConfirmDeleteAll,
    CancelConfirm,
    /// Drop the unsaved changes: empty the editor and close the note.
    DiscardAndClear,
    SearchChanged(String),
    ClearSearch,
    CloseWindow,
}

pub enum MessageView {
    Save,
    Clear,
    LoadNote(Seq<char>),
    ConfirmLoad(Seq<char>),
    CancelLoad,
    DeleteNote(Seq<char>),
    ConfirmDeleteNote(Seq<char>),
    DeleteAllNotes,
    ConfirmDeleteAll,
    CancelConfirm,
    DiscardAndClear,
    SearchChanged(Seq<char>),
    ClearSearch,
    CloseWindow,
}

impl View for Message {
    type V = MessageView;

    open spec fn view(&self) -> MessageView {
        match self {
            Message::Save => MessageView::Save,
            Message::Clear => MessageView::Clear,
            Message::LoadNote(id) => MessageView::LoadNote(id@),
            Message::ConfirmLoad(id) => MessageView::ConfirmLoad(id@),
            Message::CancelLoad => MessageView::CancelLoad,
            Message::DeleteNote(id) => MessageView::DeleteNote(id@),
            Message::ConfirmDeleteNote(id) => MessageView::ConfirmDeleteNote(id@),
            Message::DeleteAllNotes => MessageView::DeleteAllNotes,
            Message::ConfirmDeleteAll => MessageView::ConfirmDeleteAll,
            Message::CancelConfirm => MessageView::CancelConfirm,
            Message::DiscardAndClear => MessageView::DiscardAndClear,
            Message::SearchChanged(q) => MessageView::SearchChanged(q@),
            Message::ClearSearch => MessageView::ClearSearch,
            Message::CloseWindow => MessageView::CloseWindow,
        }
    }
}

/// The application's state, apart from the editor widget itself.
pub struct AppState {
    /// The notes, as the list shows them.
    pub notes: Vec<Note>,
    pub search_query: String,
    /// The note that the editor holds, if it holds one.
    pub editing_id: Option<String>,
    pub confirm_state: ConfirmState,
}

pub struct AppView {
    pub notes: Seq<NoteView>,
    pub search_query: Seq<char>,
    pub editing_id: Option<Seq<char>>,
    pub confirm: ConfirmView,
}

pub open spec fn opt_string_view(o: Option<String>) -> Option<Seq<char>> {
    match o {
        Some(s) => Some(s@),
        None => None,
    }
}

impl View for AppState {
    type V = AppView;

    open spec fn view(&self) -> AppView {
        AppView {
            notes: notes_view(self.notes@),
            search_query: self.search_query@,
            editing_id: opt_string_view(self.editing_id),
            confirm: self.confirm_state@,
        }
    }
}

/// What becomes of the editor.
pub enum EditorChange {
    Keep,
    Clear,
    /// Replace the editor's text with this one.
    Load(String),
}

pub enum EditorView {
    Keep,
    Clear,
    Load(Seq<char>),
}

impl View for EditorChange {
    type V = EditorView;

    open spec fn view(&self) -> EditorView {
        match self {
            EditorChange::Keep => EditorView::Keep,
            EditorChange::Clear => EditorView::Clear,
            EditorChange::Load(t) => EditorView::Load(t@),
        }
    }
}

/// What the window does next.
#[derive(Clone, Copy, Debug, PartialEq, Eq, Structural)]
pub enum Task {
    /// Nothing more.
    Idle,
    FocusSearch,
    CloseWindow,
}

/// What the surroundings have to do after a message.
pub struct Outcome {
    pub editor: EditorChange,
    /// A note file to write.
    pub save: Option<NoteFile>,
    /// Identifiers of notes whose files are to be removed.
    pub delete: Vec<String>,
    pub task: Task,
}

pub struct OutcomeView {
    pub editor: EditorView,
    pub save: Option<NoteView>,
    pub delete: Seq<Seq<char>>,
    pub task: Task,
}

pub open spec fn opt_file_view(o: Option<NoteFile>) -> Option<NoteView> {
    match o {
        Some(f) => Some(f@),
        None => None,
    }
}

pub open spec fn ids_view(v: Seq<String>) -> Seq<Seq<char>> {
    v.map_values(|s: String| s@)
}

impl View for Outcome {
    type V = OutcomeView;

    open spec fn view(&self) -> OutcomeView {
        OutcomeView {
            editor: self.editor@,
            save: opt_file_view(self.save),
            delete: ids_view(self.delete@),
            task: self.task,
        }
    }
}

// ---------------------------------------------------------------------------
// What each message does.

/// `i` is the first position of a note with identifier `id`.
pub open spec fn is_first_with_id(notes: Seq<NoteView>, id: Seq<char>, i: int) -> bool {
    &&& 0 <= i < notes.len()
    &&& notes[i].id == id
    &&& forall|j: int| 0 <= j < i ==> #[trigger] notes[j].id != id
}

/// The position of the first note with identifier `id`, if there is one.
pub open spec fn find_note(notes: Seq<NoteView>, id: Seq<char>) -> Option<int> {
    if exists|i: int| is_first_with_id(notes, id, i) {
        Some(choose|i: int| is_first_with_id(notes, id, i))
    } else {
        None
    }
}

/// Some note's text equals `content` once both are trimmed.
pub open spec fn has_duplicate(notes: Seq<NoteView>, content: Seq<char>) -> bool {
    exists|i: int| 0 <= i < notes.len() && trimmed(#[trigger] notes[i].content) == trimmed(content)
}

pub open spec fn without_id(id: Seq<char>) -> spec_fn(NoteView) -> bool {
    |n: NoteView| n.id != id
}

pub open spec fn note_ids(notes: Seq<NoteView>) -> Seq<Seq<char>> {
    notes.map_values(|n: NoteView| n.id)
}

/// Nothing for the surroundings to do.
pub open spec fn quiet() -> OutcomeView {
    OutcomeView { editor: EditorView::Keep, save: None, delete: Seq::empty(), task: Task::Idle }
}

/// Only the editor is to be cleared.
pub open spec fn clear_editor() -> OutcomeView {
    OutcomeView { editor: EditorView::Clear, save: None, delete: Seq::empty(), task: Task::Idle }
}

pub open spec fn with_confirm(s: AppView, c: ConfirmView) -> AppView {
    AppView { confirm: c, ..s }
}

/// Save: a blank text is ignored; an edited note takes the new text and
/// the current time and the list is sorted again; a new text becomes a new
/// note at the top unless a note with the same trimmed text exists. The
/// editor is cleared in both cases.
pub open spec fn step_save(s: AppView, content: Seq<char>, now: i64, fresh_id: Seq<char>) -> (
    AppView,
    OutcomeView,
) {
    if is_blank(content) {
        (s, quiet())
    } else {
        match s.editing_id {
            Some(eid) => {
                let found = find_note(s.notes, eid);
                if found is Some && s.notes[found->0].content != content {
                    let i = found->0;
                    let edited = NoteView { id: s.notes[i].id, content, timestamp: now };
                    (
                        AppView {
                            notes: newest_first(s.notes.update(i, edited)),
                            editing_id: None,
                            ..s
                        },
                        OutcomeView { save: Some(edited), ..clear_editor() },
                    )
                } else {
                    (AppView { editing_id: None, ..s }, clear_editor())
                }
            },
            None => {
                if has_duplicate(s.notes, content) {
                    (s, clear_editor())
                } else {
                    let created = NoteView { id: fresh_id, content, timestamp: now };
                    (
                        AppView { notes: seq![created] + s.notes, ..s },
                        OutcomeView { save: Some(created), ..clear_editor() },
                    )
                }
            },
        }
    }
}

/// The text of the note being edited, or the empty text.
pub open spec fn original_text(s: AppView, eid: Seq<char>) -> Seq<char> {
    match find_note(s.notes, eid) {
        Some(i) => s.notes[i].content,
        None => Seq::empty(),
    }
}

/// Clear: asks for confirmation when an edited note has unsaved, non-blank
/// changes; otherwise empties the editor and leaves editing mode.
pub open spec fn step_clear(s: AppView, content: Seq<char>) -> (AppView, OutcomeView) {
    if s.editing_id is Some && content != original_text(s, s.editing_id->0) && !is_blank(content) {
        (with_confirm(s, ConfirmView::UnsavedWorkBeforeClear), quiet())
    } else {
        (AppView { editing_id: None, confirm: ConfirmView::Idle, ..s }, clear_editor())
    }
}

/// The editor holds work that loading another note would lose.
pub open spec fn has_unsaved_work(s: AppView, content: Seq<char>) -> bool {
    match s.editing_id {
        None => !is_blank(content),
        Some(eid) => match find_note(s.notes, eid) {
            Some(i) => s.notes[i].content != content,
            None => false,
        },
    }
}

/// Puts the note `id`, if it exists, into the editor.
pub open spec fn open_note(s: AppView, id: Seq<char>) -> (AppView, OutcomeView) {
    match find_note(s.notes, id) {
        Some(i) => (
            AppView { editing_id: Some(s.notes[i].id), confirm: ConfirmView::Idle, ..s },
            OutcomeView { editor: EditorView::Load(s.notes[i].content), ..quiet() },
        ),
        None => (with_confirm(s, ConfirmView::Idle), quiet()),
    }
}

/// Removes every note `id`; leaves editing mode when that note was open.
pub open spec fn step_delete_note(s: AppView, id: Seq<char>) -> (AppView, OutcomeView) {
    let notes = s.notes.filter(without_id(id));
    let delete = seq![id];
    if s.editing_id == Some(id) {
        (
            AppView { notes, editing_id: None, confirm: ConfirmView::Idle, ..s },
            OutcomeView { delete, ..clear_editor() },
        )
    } else {
        (AppView { notes, confirm: ConfirmView::Idle, ..s }, OutcomeView { delete, ..quiet() })
    }
}

/// Closing the window stores unsaved, non-blank work: an edited note takes
/// the text and the current time (the list is not sorted again), a new
/// text is written as a new note unless it duplicates one.
pub open spec fn step_close(s: AppView, content: Seq<char>, now: i64, fresh_id: Seq<char>) -> (
    AppView,
    OutcomeView,
) {
    let closing = OutcomeView { task: Task::CloseWindow, ..quiet() };
    if is_blank(content) {
        (s, closing)
    } else {
        match s.editing_id {
            Some(eid) => {
                let found = find_note(s.notes, eid);
                if found is Some && s.notes[found->0].content != content {
                    let i = found->0;
                    let edited = NoteView { id: s.notes[i].id, content, timestamp: now };
                    (
                        AppView { notes: s.notes.update(i, edited), ..s },
                        OutcomeView { save: Some(edited), ..closing },
                    )
                } else {
                    (s, closing)
                }
            },
            None => {
                if has_duplicate(s.notes, content) {
                    (s, closing)
                } else {
                    (
                        s,
                        OutcomeView {
                            save: Some(NoteView { id: fresh_id, content, timestamp: now }),
                            ..closing
                        },
                    )
                }
            },
        }
    }
}

/// The next state and what the surroundings have to do, given the state,
/// the message, the editor's raw text, the current time and a fresh
/// identifier for a new note.
pub open spec fn step(
    s: AppView,
    m: MessageView,
    editor: Seq<char>,
    now: i64,
    fresh_id: Seq<char>,
) -> (AppView, OutcomeView) {
    let content = strip_trailing_newlines(editor);
    match m {
        MessageView::Save => step_save(s, content, now, fresh_id),
        MessageView::Clear => step_clear(s, content),
        MessageView::LoadNote(id) => if has_unsaved_work(s, content) {
            (with_confirm(s, ConfirmView::UnsavedWorkBeforeLoad(id)), quiet())
        } else {
            open_note(s, id)
        },
        MessageView::ConfirmLoad(id) => open_note(s, id),
        MessageView::CancelLoad => (with_confirm(s, ConfirmView::Idle), quiet()),
        MessageView::CancelConfirm => (with_confirm(s, ConfirmView::Idle), quiet()),
        MessageView::DiscardAndClear => (
            AppView { editing_id: None, confirm: ConfirmView::Idle, ..s },
            clear_editor(),
        ),
        MessageView::DeleteNote(id) => (with_confirm(s, ConfirmView::DeleteOne(id)), quiet()),
        MessageView::ConfirmDeleteNote(id) => step_delete_note(s, id),
        MessageView::DeleteAllNotes => (with_confirm(s, ConfirmView::DeleteAll), quiet()),
        MessageView::ConfirmDeleteAll => (
            AppView {
                notes: Seq::empty(),
                editing_id: None,
                confirm: ConfirmView::Idle,
                ..s
            },
            OutcomeView { delete: note_ids(s.notes), ..clear_editor() },
        ),
        MessageView::SearchChanged(q) => (
            AppView { search_query: q, ..s },
            OutcomeView { task: Task::FocusSearch, ..quiet() },
        ),
        MessageView::ClearSearch => (
            AppView { search_query: Seq::empty(), ..s },
            OutcomeView { task: Task::FocusSearch, ..quiet() },
        ),
        MessageView::CloseWindow => step_close(s, content, now, fresh_id),
    }
}

// ---------------------------------------------------------------------------
// The executable side.

pub proof fn lemma_first_with_id_unique(notes: Seq<NoteView>, id: Seq<char>, i: int, k: int)
    requires
        is_first_with_id(notes, id, i),
        is_first_with_id(notes, id, k),
    ensures
        i == k,
{
    if i < k {
        assert(notes[i].id != id);
    } else if k < i {
        assert(notes[k].id != id);
    }
}

pub open spec fn opt_index(o: Option<usize>) -> Option<int> {
    match o {
        Some(i) => Some(i as int),
        None => None,
    }
}

/// Position of the first note with identifier `id`.
pub fn find_note_index(notes: &Vec<Note>, id: &String) -> (r: Option<usize>)
    ensures
        opt_index(r) == find_note(notes_view(notes@), id@),
        r matches Some(i) ==> i < notes.len(),
{
    let ghost nv = notes_view(notes@);
    let mut i: usize = 0;
    while i < notes.len()
        invariant
            nv == notes_view(notes@),
            i <= notes.len(),
            forall|j: int| 0 <= j < i ==> #[trigger] nv[j].id != id@,
        decreases notes.len() - i,
    {
        if notes[i].id == *id {
            proof {
                assert(is_first_with_id(nv, id@, i as int));
                let k = choose|k: int| is_first_with_id(nv, id@, k);
                lemma_first_with_id_unique(nv, id@, i as int, k);
            }
            return Some(i);
        }
        i = i + 1;
    }
    proof {
        assert forall|k: int| !is_first_with_id(nv, id@, k) by {
            if is_first_with_id(nv, id@, k) {
                assert(nv[k].id != id@);
            }
        }
    }
    None
}

/// Whether some note's trimmed text equals the trimmed `content`.
pub fn has_duplicate_content(notes: &Vec<Note>, content: &String) -> (b: bool)
    ensures
        b == has_duplicate(notes_view(notes@), content@),
{
    let ghost nv = notes_view(notes@);
    let t = trim_text(content.as_str());
    let mut i: usize = 0;
    while i < notes.len()
        invariant
            nv == notes_view(notes@),
            t@ == trimmed(content@),
            i <= notes.len(),
            forall|j: int| 0 <= j < i ==> trimmed(#[trigger] nv[j].content) != trimmed(content@),
        decreases notes.len() - i,
    {
        let u = trim_text(notes[i].content.as_str());
        if u == t {
            proof {
                assert(trimmed(nv[i as int].content) == trimmed(content@));
            }
            return true;
        }
        i = i + 1;
    }
    false
}

/// The notes other than those with identifier `id`, in their order.
pub fn notes_without(notes: &Vec<Note>, id: &String) -> (r: Vec<Note>)
    ensures
        notes_view(r@) == notes_view(notes@).filter(without_id(id@)),
{
    let ghost nv = notes_view(notes@);
    let ghost keep = without_id(id@);
    let mut out: Vec<Note> = Vec::new();
    let mut i: usize = 0;
    proof {
        reveal(Seq::filter);
        assert(nv.take(0) =~= Seq::<NoteView>::empty());
        assert(notes_view(out@) =~= nv.take(0).filter(keep));
    }
    while i < notes.len()
        invariant
            nv == notes_view(notes@),
            keep == without_id(id@),
            i <= notes.len(),
            notes_view(out@) == nv.take(i as int).filter(keep),
        decreases notes.len() - i,
    {
        let ghost prev = notes_view(out@);
        proof {
            nv.take(i as int).lemma_filter_push(nv[i as int], keep);
            assert(nv.take(i as int).push(nv[i as int]) =~= nv.take(i as int + 1));
        }
        if notes[i].id != *id {
            out.push(notes[i].clone());
            proof {
                assert(notes_view(out@) =~= prev.push(nv[i as int]));
            }
        }
        i = i + 1;
    }
    proof {
        assert(nv.take(notes.len() as int) =~= nv);
    }
    out
}

/// The identifiers of the notes, in order.
pub fn ids_of(notes: &Vec<Note>) -> (r: Vec<String>)
    ensures
        ids_view(r@) == note_ids(notes_view(notes@)),
{
    let mut out: Vec<String> = Vec::new();
    let mut i: usize = 0;
    while i < notes.len()
        invariant
            i <= notes.len(),
            out.len() == i,
            ids_view(out@) == note_ids(notes_view(notes@)).take(i as int),
        decreases notes.len() - i,
    {
        let ghost prev = out@;
        out.push(notes[i].id.clone());
        proof {
            let want = note_ids(notes_view(notes@)).take(i as int + 1);
            assert forall|k: int| 0 <= k < i + 1 implies #[trigger] ids_view(out@)[k] == want[k] by {
                if k < i {
                    assert(out@[k] == prev[k]);
                    assert(ids_view(prev)[k] == note_ids(notes_view(notes@)).take(i as int)[k]);
                }
            }
            assert(ids_view(out@) =~= want);
        }
        i = i + 1;
    }
    proof {
        assert(note_ids(notes_view(notes@)).take(notes.len() as int) =~= note_ids(
            notes_view(notes@),
        ));
    }
    out
}

fn quiet_outcome() -> (r: Outcome)
    ensures
        r@ == quiet(),
{
    let r = Outcome { editor: EditorChange::Keep, save: None, delete: Vec::new(), task: Task::Idle };
    proof {
        assert(ids_view(r.delete@) =~= Seq::<Seq<char>>::empty());
    }
    r
}

fn outcome(editor: EditorChange, save: Option<NoteFile>, task: Task) -> (r: Outcome)
    ensures
        r@ == (OutcomeView {
            editor: editor@,
            save: opt_file_view(save),
            delete: Seq::empty(),
            task,
        }),
{
    let r = Outcome { editor, save, delete: Vec::new(), task };
    proof {
        assert(ids_view(r.delete@) =~= Seq::<Seq<char>>::empty());
    }
    r
}

/// A new state holding the given notes, with an empty search and an empty
/// editor.
pub fn new_state(notes: Vec<Note>) -> (r: AppState)
    ensures
        r@ == (AppView {
            notes: notes_view(notes@),
            search_query: Seq::empty(),
            editing_id: None,
            confirm: ConfirmView::Idle,
        }),
{
    AppState {
        notes,
        search_query: String::new(),
        editing_id: None,
        confirm_state: ConfirmState::Idle,
    }
}

impl AppState {
    /// Whether the editor holds an edited note whose text differs from
    /// `content`, or a non-blank new text.
    fn unsaved_work(&self, content: &String) -> (b: bool)
        ensures
            b == has_unsaved_work(self@, content@),
    {
        match &self.editing_id {
            None => !is_blank_text(content.as_str()),
            Some(eid) => match find_note_index(&self.notes, eid) {
                Some(i) => self.notes[i].content != *content,
                None => false,
            },
        }
    }

    fn open_note(&mut self, id: String) -> (r: Outcome)
        ensures
            (final(self)@, r@) == open_note(old(self)@, id@),
    {
        match find_note_index(&self.notes, &id) {
            Some(i) => {
                let text = self.notes[i].content.clone();
                self.editing_id = Some(self.notes[i].id.clone());
                self.confirm_state = ConfirmState::Idle;
                outcome(EditorChange::Load(text), None, Task::Idle)
            },
            None => {
                self.confirm_state = ConfirmState::Idle;
                quiet_outcome()
            },
        }
    }

    /// Replaces the text of note `i` with `content`, stamped `now`, and
    /// gives the file to write.
    fn edit_note(&mut self, i: usize, content: String, now: i64) -> (f: NoteFile)
        requires
            i < old(self).notes.len(),
        ensures
            f@ == (NoteView { id: old(self)@.notes[i as int].id, content: content@, timestamp: now }),
            final(self)@ == (AppView {
                notes: old(self)@.notes.update(i as int, f@),
                ..old(self)@
            }),
    {
        let edited = Note { id: self.notes[i].id.clone(), content, timestamp: now };
        let f = edited.to_file();
        self.notes.set(i, edited);
        proof {
            assert(notes_view(self.notes@) =~= old(self)@.notes.update(i as int, f@));
        }
        f
    }

    fn save(&mut self, content: String, now: i64, fresh_id: String) -> (r: Outcome)
        ensures
            (final(self)@, r@) == step_save(old(self)@, content@, now, fresh_id@),
    {
        if is_blank_text(content.as_str()) {
            return quiet_outcome();
        }
        match self.editing_id.clone() {
            Some(eid) => {
                let found = find_note_index(&self.notes, &eid);
                let mut save: Option<NoteFile> = None;
                match found {
                    Some(i) => {
                        if self.notes[i].content != content {
                            let f = self.edit_note(i, content, now);
                            sort_newest_first(&mut self.notes);
                            save = Some(f);
                        }
                    },
                    None => {},
                }
                self.editing_id = None;
                outcome(EditorChange::Clear, save, Task::Idle)
            },
            None => {
                if has_duplicate_content(&self.notes, &content) {
                    outcome(EditorChange::Clear, None, Task::Idle)
                } else {
                    let f = NoteFile { id: fresh_id, content, timestamp: now };
                    let note = f.to_note();
                    self.notes.insert(0, note);
                    proof {
                        assert(notes_view(self.notes@) =~= seq![f@] + old(self)@.notes);
                    }
                    outcome(EditorChange::Clear, Some(f), Task::Idle)
                }
            },
        }
    }

    fn clear(&mut self, content: String) -> (r: Outcome)
        ensures
            (final(self)@, r@) == step_clear(old(self)@, content@),
    {
        match &self.editing_id {
            Some(eid) => {
                let differs = match find_note_index(&self.notes, eid) {
                    Some(i) => self.notes[i].content != content,
                    None => content.as_str().unicode_len() != 0,
                };
                proof {
                    if find_note(self@.notes, eid@) is None {
                        assert(content@.len() == 0 ==> content@ =~= Seq::<char>::empty());
                    }
                }
                if differs && !is_blank_text(content.as_str()) {
                    self.confirm_state = ConfirmState::UnsavedWorkBeforeClear;
                    return quiet_outcome();
                }
            },
            None => {},
        }
        self.editing_id = None;
        self.confirm_state = ConfirmState::Idle;
        outcome(EditorChange::Clear, None, Task::Idle)
    }

    fn delete_note(&mut self, id: String) -> (r: Outcome)
        ensures
            (final(self)@, r@) == step_delete_note(old(self)@, id@),
    {
        self.notes = notes_without(&self.notes, &id);
        let was_open = match &self.editing_id {
            Some(e) => *e == id,
            None => false,
        };
        let mut delete: Vec<String> = Vec::new();
        delete.push(id);
        proof {
            assert(ids_view(delete@) =~= seq![id@]);
        }
        let editor = if was_open {
            self.editing_id = None;
            EditorChange::Clear
        } else {
            EditorChange::Keep
        };
        self.confirm_state = ConfirmState::Idle;
        Outcome { editor, save: None, delete, task: Task::Idle }
    }

    fn close(&mut self, content: String, now: i64, fresh_id: String) -> (r: Outcome)
        ensures
            (final(self)@, r@) == step_close(old(self)@, content@, now, fresh_id@),
    {
        if is_blank_text(content.as_str()) {
            return outcome(EditorChange::Keep, None, Task::CloseWindow);
        }
        match self.editing_id.clone() {
            Some(eid) => {
                match find_note_index(&self.notes, &eid) {
                    Some(i) => {
                        if self.notes[i].content != content {
                            let f = self.edit_note(i, content, now);
                            return outcome(EditorChange::Keep, Some(f), Task::CloseWindow);
                        }
                    },
                    None => {},
                }
                outcome(EditorChange::Keep, None, Task::CloseWindow)
            },
            None => {
                if has_duplicate_content(&self.notes, &content) {
                    outcome(EditorChange::Keep, None, Task::CloseWindow)
                } else {
                    let f = NoteFile { id: fresh_id, content, timestamp: now };
                    outcome(EditorChange::Keep, Some(f), Task::CloseWindow)
                }
            },
        }
    }
}

/// Applies `message` to the state, given the editor's raw text, the
/// current time and a fresh identifier for a note that may be created.
pub fn update_with(
    state: &mut AppState,
    message: Message,
    editor: &str,
    now: i64,
    fresh_id: String,
) -> (r: Outcome)
    ensures
        (final(state)@, r@) == step(old(state)@, message@, editor@, now, fresh_id@),
{
    let content = editor_text(editor);
    match message {
        Message::Save => state.save(content, now, fresh_id),
        Message::Clear => state.clear(content),
        Message::LoadNote(id) => {
            if state.unsaved_work(&content) {
                state.confirm_state = ConfirmState::UnsavedWorkBeforeLoad(id);
                quiet_outcome()
            } else {
                state.open_note(id)
            }
        },
        Message::ConfirmLoad(id) => state.open_note(id),
        Message::CancelLoad => {
            state.confirm_state = ConfirmState::Idle;
            quiet_outcome()
        },
        Message::CancelConfirm => {
            state.confirm_state = ConfirmState::Idle;
            quiet_outcome()
        },
        Message::DiscardAndClear => {
            state.editing_id = None;
            state.confirm_state = ConfirmState::Idle;
            outcome(EditorChange::Clear, None, Task::Idle)
        },
        Message::DeleteNote(id) => {
            state.confirm_state = ConfirmState::DeleteOne(id);
            quiet_outcome()
        },
        Message::ConfirmDeleteNote(id) => state.delete_note(id),
        Message::DeleteAllNotes => {
            state.confirm_state = ConfirmState::DeleteAll;
            quiet_outcome()
        },
        Message::ConfirmDeleteAll => {
            let delete = ids_of(&state.notes);
            state.notes.clear();
            state.editing_id = None;
            state.confirm_state = ConfirmState::Idle;
            proof {
                assert(notes_view(state.notes@) =~= Seq::<NoteView>::empty());
            }
            Outcome { editor: EditorChange::Clear, save: None, delete, task: Task::Idle }
        },
        Message::SearchChanged(q) => {
            state.search_query = q;
            outcome(EditorChange::Keep, None, Task::FocusSearch)
        },
        Message::ClearSearch => {
            state.search_query = String::new();
            outcome(EditorChange::Keep, None, Task::FocusSearch)
        },
        Message::CloseWindow => state.close(content, now, fresh_id),
    }
}

/// The messages whose step may write a note, and so needs the current time
/// and a fresh identifier.
pub open spec fn may_write(m: MessageView) -> bool {
    m is Save || m is CloseWindow
}

/// Applies `message` to the state, given the editor's raw text. Only saving
/// and closing the window read the clock and draw a fresh identifier; the
/// result is then the step for some such time and some identifier of the
/// version-4 UUID form. Every other message does not depend on either.
pub fn update(state: &mut AppState, message: Message, editor: &str) -> (r: Outcome)
    ensures
        may_write(message@) ==> exists|now: i64, id: Seq<char>|
            is_v4_uuid_text(id) && (final(state)@, r@) == #[trigger] step(
                old(state)@,
                message@,
                editor@,
                now,
                id,
            ),
        !may_write(message@) ==> forall|now: i64, id: Seq<char>|
            (final(state)@, r@) == #[trigger] step(old(state)@, message@, editor@, now, id),
{
    let writes = match &message {
        Message::Save => true,
        Message::CloseWindow => true,
        _ => false,
    };
    if writes {
        let now = now_millis();
        let fresh_id = new_note_id();
        let ghost id = fresh_id@;
        let r = update_with(state, message, editor, now, fresh_id);
        proof {
            assert(is_v4_uuid_text(id));
        }
        r
    } else {
        let ghost s0 = state@;
        let ghost m = message@;
        let r = update_with(state, message, editor, 0, String::new());
        proof {
            assert forall|now: i64, id: Seq<char>| (state@, r@) == #[trigger] step(s0, m, editor@, now, id) by {
                assert(step(s0, m, editor@, now, id) == step(s0, m, editor@, 0, Seq::<char>::empty()));
            }
        }
        r
    }
}

} // verus!
