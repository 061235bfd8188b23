use quick_notes::notes::Note;
use quick_notes::state::{new_state, update_with, AppState, Message};
use quick_notes::view::{
    build_row, note_matches, note_preview, shortcut_message, view_model, Dialog, EmptyNotice, Header,
};

fn note(id: &str, content: &str, timestamp: i64) -> Note {
    Note { id: id.to_string(), content: content.to_string(), timestamp }
}

fn sample() -> AppState {
    new_state(vec![
        note("a", "Shopping list\nmilk", 0),
        note("b", "Meeting NOTES", 947638923004),
        note("c", "other", 60_000),
    ])
}

fn step(s: &mut AppState, m: Message, editor: &str) {
    update_with(s, m, editor, 5, "n".to_string());
}

#[test]
fn search_is_case_insensitive() {
    assert!(note_matches("Meeting NOTES", "notes"));
    assert!(note_matches("straße", "STRASSE") == "straße".to_lowercase().contains(&"STRASSE".to_lowercase()));
    assert!(note_matches("anything", ""));
    assert!(!note_matches("abc", "x"));
    assert!(note_matches("ÄBC", "äb"));
}

#[test]
fn preview_flattens_and_truncates() {
    assert_eq!(note_preview("a\nb"), "a ↵ b");
    let long = "word ".repeat(30);
    let p = note_preview(&long);
    assert!(p.ends_with("..."));
    assert!(p.chars().count() <= 103);
    assert_eq!(p, format!("{}...", "word ".repeat(20).trim_end()));
}

#[test]
fn all_notes_listed_without_search() {
    let s = sample();
    let vm = view_model(&s, "");
    assert!(!vm.is_filtering);
    assert_eq!(vm.rows.len(), 3);
    assert_eq!(vm.rows[0].id, "a");
    assert_eq!(vm.rows[0].preview, "Shopping list ↵ milk");
    assert_eq!(vm.rows[0].date, "01/01/70 00:00");
    assert_eq!(vm.rows[1].date, "12/01/00 01:02");
    assert_eq!(vm.rows[2].date, "01/01/70 00:01");
    assert_eq!(vm.header, Header::NewNote);
    assert!(vm.empty_notice.is_none());
    assert_eq!(vm.note_count, 3);
    assert!(!vm.editing);
    assert!(matches!(vm.dialog, Dialog::Hidden));
}

#[test]
fn search_filters_rows() {
    let mut s = sample();
    step(&mut s, Message::SearchChanged("NOTES".to_string()), "");
    let vm = view_model(&s, "");
    assert!(vm.is_filtering);
    assert_eq!(vm.rows.len(), 1);
    assert_eq!(vm.rows[0].id, "b");
    step(&mut s, Message::SearchChanged("zzz".to_string()), "");
    let vm = view_model(&s, "");
    assert_eq!(vm.rows.len(), 0);
    assert_eq!(vm.empty_notice, Some(EmptyNotice::NoMatches));
}

#[test]
fn empty_list_notice() {
    let s = new_state(Vec::new());
    let vm = view_model(&s, "");
    assert_eq!(vm.empty_notice, Some(EmptyNotice::NoNotes));
}

#[test]
fn header_tracks_editing_state() {
    let mut s = sample();
    step(&mut s, Message::LoadNote("c".to_string()), "");
    let vm = view_model(&s, "other\n");
    assert_eq!(vm.header, Header::Editing);
    assert!(vm.editing);
    assert!(vm.rows[2].is_editing && !vm.rows[0].is_editing);
    let vm = view_model(&s, "other!");
    assert_eq!(vm.header, Header::EditingUnsaved);
}

#[test]
fn editor_length_counts_characters() {
    let s = sample();
    assert_eq!(view_model(&s, "héllo\n").editor_chars, 5);
    assert_eq!(view_model(&s, "é").editor_chars, 1);
    assert_eq!(view_model(&s, "").editor_chars, 0);
}

#[test]
fn confirmations_show() {
    let mut s = sample();
    step(&mut s, Message::DeleteNote("b".to_string()), "");
    let vm = view_model(&s, "");
    assert!(vm.rows[1].confirming_delete && !vm.rows[0].confirming_delete);
    step(&mut s, Message::DeleteAllNotes, "");
    assert!(view_model(&s, "").confirming_delete_all);
    step(&mut s, Message::LoadNote("a".to_string()), "draft");
    assert!(matches!(view_model(&s, "").dialog, Dialog::UnsavedBeforeLoad(ref id) if id == "a"));
    step(&mut s, Message::ConfirmLoad("a".to_string()), "draft");
    step(&mut s, Message::Clear, "changed");
    assert!(matches!(view_model(&s, "").dialog, Dialog::UnsavedBeforeClear));
}

#[test]
fn row_without_date() {
    let n = note("x", "text", i64::MAX);
    let r = build_row(&n, None, &None, &quick_notes::state::ConfirmState::Idle);
    assert_eq!(r.date, "");
    let r = build_row(&n, Some("d".to_string()), &Some("x".to_string()), &quick_notes::state::ConfirmState::Idle);
    assert_eq!(r.date, "d");
    assert!(r.is_editing);
    let vm = view_model(&new_state(vec![n]), "");
    assert_eq!(vm.rows[0].date, "");
}

#[test]
fn ctrl_s_saves() {
    assert!(matches!(shortcut_message(true, "s"), Some(Message::Save)));
    assert!(shortcut_message(false, "s").is_none());
    assert!(shortcut_message(true, "a").is_none());
    assert!(shortcut_message(true, "S").is_none());
    assert!(shortcut_message(true, "ss").is_none());
}
