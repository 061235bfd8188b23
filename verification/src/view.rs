//! What the window shows, computed from the state: the header, the pending
//! confirmation, the notes that match the search and the counters. The
//! window code only lays these values out.
use vstd::prelude::*;
use vstd::string::*;
use crate::notes::{notes_view, Note, NoteView};
use crate::outside::{format_utc_date, lowercase, opt_text_view, to_lowercase, utc_date_text};
use crate::state::{find_note, find_note_index, opt_string_view, AppState, AppView, ConfirmState, ConfirmView};
use crate::text::{
    contains_text, editor_text, has_substring, replace_newlines, replace_newlines_text,
    strip_trailing_newlines, truncate_at_word, truncated,
};

verus! {

/// The label above the editor.
#[derive(Clone, Copy, Debug, PartialEq, Eq, Structural)]
pub enum Header {
    NewNote,
    Editing,
    EditingUnsaved,
}

/// Why the empty list is empty.
#[derive(Clone, Copy, Debug, PartialEq, Eq, Structural)]
pub enum EmptyNotice {
    NoMatches,
    NoNotes,
}

/// The confirmation dialog above everything else.
pub enum Dialog {
    Hidden,
    /// Discard the editor's work and load the note with this identifier.
    UnsavedBeforeLoad(String),
    UnsavedBeforeClear,
}

pub enum DialogView {
    Hidden,
    UnsavedBeforeLoad(Seq<char>),
    UnsavedBeforeClear,
}

impl View for Dialog {
    type V = DialogView;

    open spec fn view(&self) -> DialogView {
        match self {
            Dialog::Hidden => DialogView::Hidden,
            Dialog::UnsavedBeforeLoad(id) => DialogView::UnsavedBeforeLoad(id@),
            Dialog::UnsavedBeforeClear => DialogView::UnsavedBeforeClear,
        }
    }
}

/// One line of the notes list.
pub struct NoteRow {
    pub id: String,
    pub preview: String,
    pub date: String,
    /// The note is open in the editor.
    pub is_editing: bool,
    /// The note's delete button waits for confirmation.
    pub confirming_delete: bool,
}

pub struct RowView {
    pub id: Seq<char>,
    pub preview: Seq<char>,
    pub date: Seq<char>,
    pub is_editing: bool,
    pub confirming_delete: bool,
}

impl View for NoteRow {
    type V = RowView;

    open spec fn view(&self) -> RowView {
        RowView {
            id: self.id@,
            preview: self.preview@,
            date: self.date@,
            is_editing: self.is_editing,
            confirming_delete: self.confirming_delete,
        }
    }
}

/// Everything the window shows.
pub struct ViewModel {
    pub header: Header,
    pub dialog: Dialog,
    /// A note is open in the editor (the save button reads "Update").
    pub editing: bool,
    /// The search field is not empty.
    pub is_filtering: bool,
    /// The notes that match the search, in list order.
    pub rows: Vec<NoteRow>,
    pub empty_notice: Option<EmptyNotice>,
    /// Number of characters of the editor's text.
    pub editor_chars: usize,
    pub note_count: usize,
    /// "Delete all" waits for confirmation.
    pub confirming_delete_all: bool,
}

pub struct ViewModelView {
    pub header: Header,
    pub dialog: DialogView,
    pub editing: bool,
    pub is_filtering: bool,
    pub rows: Seq<RowView>,
    pub empty_notice: Option<EmptyNotice>,
    pub editor_chars: nat,
    pub note_count: nat,
    pub confirming_delete_all: bool,
}

pub open spec fn rows_view(rows: Seq<NoteRow>) -> Seq<RowView> {
    rows.map_values(|r: NoteRow| r@)
}

impl View for ViewModel {
    type V = ViewModelView;

    open spec fn view(&self) -> ViewModelView {
        ViewModelView {
            header: self.header,
            dialog: self.dialog@,
            editing: self.editing,
            is_filtering: self.is_filtering,
            rows: rows_view(self.rows@),
            empty_notice: self.empty_notice,
            editor_chars: self.editor_chars as nat,
            note_count: self.note_count as nat,
            confirming_delete_all: self.confirming_delete_all,
        }
    }
}

/// Longest preview, in characters, before "...".
pub const PREVIEW_CHARS: usize = 100;

/// A note matches the search when the search is empty or occurs in the
/// note's lower-cased text once lower-cased itself.
pub open spec fn matches_search(content: Seq<char>, query: Seq<char>) -> bool {
    query.len() == 0 || has_substring(lowercase(content), lowercase(query))
}

pub open spec fn matching(query: Seq<char>) -> spec_fn(NoteView) -> bool {
    |n: NoteView| matches_search(n.content, query)
}

pub open spec fn header_of(s: AppView, content: Seq<char>) -> Header {
    match s.editing_id {
        Some(eid) => match find_note(s.notes, eid) {
            Some(i) => if content != s.notes[i].content {
                Header::EditingUnsaved
            } else {
                Header::Editing
            },
            None => Header::NewNote,
        },
        None => Header::NewNote,
    }
}

pub open spec fn dialog_of(c: ConfirmView) -> DialogView {
    match c {
        ConfirmView::UnsavedWorkBeforeLoad(id) => DialogView::UnsavedBeforeLoad(id),
        ConfirmView::UnsavedWorkBeforeClear => DialogView::UnsavedBeforeClear,
        _ => DialogView::Hidden,
    }
}

/// The preview of a note's text: newlines shown as " ↵ ", cut at a word
/// boundary after `PREVIEW_CHARS` characters.
pub open spec fn preview_of(content: Seq<char>) -> Seq<char> {
    truncated(replace_newlines(content), PREVIEW_CHARS as nat)
}

/// The row of a note, given the calendar text of its timestamp.
pub open spec fn row_of(
    n: NoteView,
    date: Option<Seq<char>>,
    editing_id: Option<Seq<char>>,
    confirm: ConfirmView,
) -> RowView {
    RowView {
        id: n.id,
        preview: preview_of(n.content),
        date: match date {
            Some(d) => d,
            None => Seq::empty(),
        },
        is_editing: editing_id == Some(n.id),
        confirming_delete: confirm == ConfirmView::DeleteOne(n.id),
    }
}

pub open spec fn rows_of(s: AppView) -> Seq<RowView> {
    s.notes.filter(matching(s.search_query)).map_values(
        |n: NoteView| row_of(n, utc_date_text(n.timestamp), s.editing_id, s.confirm),
    )
}

/// What the window shows for the state `s` and the editor's raw text.
pub open spec fn view_of(s: AppView, editor: Seq<char>) -> ViewModelView {
    let content = strip_trailing_newlines(editor);
    let rows = rows_of(s);
    ViewModelView {
        header: header_of(s, content),
        dialog: dialog_of(s.confirm),
        editing: s.editing_id is Some,
        is_filtering: s.search_query.len() != 0,
        rows,
        empty_notice: if rows.len() != 0 {
            None
        } else if s.search_query.len() != 0 {
            Some(EmptyNotice::NoMatches)
        } else {
            Some(EmptyNotice::NoNotes)
        },
        editor_chars: content.len(),
        note_count: s.notes.len(),
        confirming_delete_all: s.confirm == ConfirmView::DeleteAll,
    }
}

/// Whether a note's text matches the search.
pub fn note_matches(content: &str, query: &str) -> (b: bool)
    ensures
        b == matches_search(content@, query@),
        b == (query@.len() == 0 || has_substring(lowercase(content@), lowercase(query@))),
{
    if query.unicode_len() == 0 {
        return true;
    }
    let c = to_lowercase(content);
    let q = to_lowercase(query);
    contains_text(c.as_str(), q.as_str())
}

/// The preview line of a note's text.
pub fn note_preview(content: &str) -> (r: String)
    ensures
        r@ == preview_of(content@),
{
    let flat = replace_newlines_text(content);
    truncate_at_word(flat.as_str(), PREVIEW_CHARS)
}

fn same_id(a: &Option<String>, b: &String) -> (r: bool)
    ensures
        r == (opt_string_view(*a) == Some(b@)),
{
    match a {
        Some(x) => *x == *b,
        None => false,
    }
}

/// The row of `note`, given the calendar text of its timestamp.
pub fn build_row(
    note: &Note,
    date: Option<String>,
    editing_id: &Option<String>,
    confirm: &ConfirmState,
) -> (r: NoteRow)
    ensures
        r@ == row_of(note@, opt_text_view(date), opt_string_view(*editing_id), confirm@),
{
    let confirming_delete = match confirm {
        ConfirmState::DeleteOne(id) => *id == note.id,
        _ => false,
    };
    NoteRow {
        id: note.id.clone(),
        preview: note_preview(note.content.as_str()),
        date: match date {
            Some(d) => d,
            None => String::new(),
        },
        is_editing: same_id(editing_id, &note.id),
        confirming_delete,
    }
}

/// What the window shows for the state and the editor's raw text.
pub fn view_model(state: &AppState, editor: &str) -> (vm: ViewModel)
    ensures
        vm@ == view_of(state@, editor@),
{
    let content = editor_text(editor);
    let ghost s = state@;
    let header = match &state.editing_id {
        Some(eid) => match find_note_index(&state.notes, eid) {
            Some(i) => if content != state.notes[i].content {
                Header::EditingUnsaved
            } else {
                Header::Editing
            },
            None => Header::NewNote,
        },
        None => Header::NewNote,
    };
    let dialog = match &state.confirm_state {
        ConfirmState::UnsavedWorkBeforeLoad(id) => Dialog::UnsavedBeforeLoad(id.clone()),
        ConfirmState::UnsavedWorkBeforeClear => Dialog::UnsavedBeforeClear,
        _ => Dialog::Hidden,
    };
    let ghost keep = matching(s.search_query);
    let ghost mk = |n: NoteView| row_of(n, utc_date_text(n.timestamp), s.editing_id, s.confirm);
    let mut rows: Vec<NoteRow> = Vec::new();
    let mut i: usize = 0;
    proof {
        reveal(Seq::filter);
        assert(s.notes.take(0) =~= Seq::<NoteView>::empty());
        assert(rows_view(rows@) =~= s.notes.take(0).filter(keep).map_values(mk));
    }
    while i < state.notes.len()
        invariant
            s == state@,
            keep == matching(s.search_query),
            mk == (|n: NoteView| row_of(n, utc_date_text(n.timestamp), s.editing_id, s.confirm)),
            i <= state.notes.len(),
            rows_view(rows@) == s.notes.take(i as int).filter(keep).map_values(mk),
        decreases state.notes.len() - i,
    {
        let note = &state.notes[i];
        let ghost prev = rows@;
        proof {
            assert(s.notes[i as int] == note@);
            s.notes.take(i as int).lemma_filter_push(note@, keep);
            assert(s.notes.take(i as int).push(note@) =~= s.notes.take(i as int + 1));
        }
        if note_matches(note.content.as_str(), state.search_query.as_str()) {
            let date = format_utc_date(note.timestamp);
            let row = build_row(note, date, &state.editing_id, &state.confirm_state);
            let ghost rv = row@;
            rows.push(row);
            proof {
                let f = s.notes.take(i as int).filter(keep);
                assert(rv == mk(note@));
                assert(rows_view(rows@) =~= rows_view(prev).push(rv));
                assert(f.push(note@).map_values(mk) =~= f.map_values(mk).push(mk(note@)));
            }
        }
        i = i + 1;
    }
    proof {
        assert(s.notes.take(state.notes.len() as int) =~= s.notes);
    }
    let is_filtering = state.search_query.as_str().unicode_len() != 0;
    proof {
        assert(rows_view(rows@).len() == rows@.len());
        assert(rows_view(rows@) == rows_of(s));
    }
    let empty_notice = if rows.len() != 0 {
        None
    } else if is_filtering {
        Some(EmptyNotice::NoMatches)
    } else {
        Some(EmptyNotice::NoNotes)
    };
    ViewModel {
        header,
        dialog,
        editing: state.editing_id.is_some(),
        is_filtering,
        rows,
        empty_notice,
        editor_chars: content.as_str().unicode_len(),
        note_count: state.notes.len(),
        confirming_delete_all: match &state.confirm_state {
            ConfirmState::DeleteAll => true,
            _ => false,
        },
    }
}

/// The message a key press sends: Ctrl+S saves.
pub fn shortcut_message(ctrl: bool, key: &str) -> (r: Option<crate::state::Message>)
    ensures
        r is Some <==> ctrl && key@ == seq!['s'],
        r matches Some(m) ==> m is Save,
{
    if ctrl && key.unicode_len() == 1 && key.get_char(0) == 's' {
        proof {
            assert(key@ =~= seq!['s']);
        }
        Some(crate::state::Message::Save)
    } else {
        None
    }
}

} // verus!
