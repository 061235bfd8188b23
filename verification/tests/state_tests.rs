use quick_notes::notes::Note;
use quick_notes::state::{
    new_state, update, update_with, AppState, ConfirmState, EditorChange, Message, Outcome, Task,
};

fn note(id: &str, content: &str, timestamp: i64) -> Note {
    Note { id: id.to_string(), content: content.to_string(), timestamp }
}

fn sample() -> AppState {
    new_state(vec![note("a", "alpha", 30), note("b", "beta", 20), note("c", "gamma", 10)])
}

fn step(state: &mut AppState, m: Message, editor: &str) -> Outcome {
    update_with(state, m, editor, 100, "fresh".to_string())
}

fn ids(state: &AppState) -> Vec<&str> {
    state.notes.iter().map(|n| n.id.as_str()).collect()
}

fn is_clear(o: &Outcome) -> bool {
    matches!(o.editor, EditorChange::Clear)
}

fn is_keep(o: &Outcome) -> bool {
    matches!(o.editor, EditorChange::Keep)
}

#[test]
fn new_state_is_empty_editor() {
    let s = sample();
    assert_eq!(s.notes.len(), 3);
    assert!(s.editing_id.is_none());
    assert!(s.search_query.is_empty());
    assert!(matches!(s.confirm_state, ConfirmState::Idle));
}

#[test]
fn save_new_note_goes_first() {
    let mut s = sample();
    let o = step(&mut s, Message::Save, "delta\n\n");
    assert_eq!(ids(&s), vec!["fresh", "a", "b", "c"]);
    assert_eq!(s.notes[0].content, "delta");
    assert_eq!(s.notes[0].timestamp, 100);
    let f = o.save.as_ref().unwrap();
    assert_eq!((f.id.as_str(), f.content.as_str(), f.timestamp), ("fresh", "delta", 100));
    assert!(is_clear(&o));
    assert_eq!(o.task, Task::Idle);
}

#[test]
fn save_blank_does_nothing() {
    let mut s = sample();
    let o = step(&mut s, Message::Save, "  \n\t\n");
    assert_eq!(ids(&s), vec!["a", "b", "c"]);
    assert!(o.save.is_none());
    assert!(is_keep(&o));
}

#[test]
fn save_duplicate_after_trim_is_ignored() {
    let mut s = sample();
    let o = step(&mut s, Message::Save, "  beta  ");
    assert_eq!(ids(&s), vec!["a", "b", "c"]);
    assert!(o.save.is_none());
    assert!(is_clear(&o));
}

#[test]
fn load_clean_editor_opens_note() {
    let mut s = sample();
    let o = step(&mut s, Message::LoadNote("b".to_string()), "");
    assert_eq!(s.editing_id.as_deref(), Some("b"));
    match o.editor {
        EditorChange::Load(t) => assert_eq!(t, "beta"),
        _ => panic!("editor not loaded"),
    }
}

#[test]
fn load_with_unsaved_new_text_asks_first() {
    let mut s = sample();
    let o = step(&mut s, Message::LoadNote("b".to_string()), "draft");
    assert!(matches!(&s.confirm_state, ConfirmState::UnsavedWorkBeforeLoad(id) if id == "b"));
    assert!(s.editing_id.is_none());
    assert!(is_keep(&o));
    let o = step(&mut s, Message::ConfirmLoad("b".to_string()), "draft");
    assert_eq!(s.editing_id.as_deref(), Some("b"));
    assert!(matches!(s.confirm_state, ConfirmState::Idle));
    assert!(matches!(o.editor, EditorChange::Load(ref t) if t == "beta"));
}

#[test]
fn load_with_unsaved_edit_asks_first() {
    let mut s = sample();
    step(&mut s, Message::LoadNote("a".to_string()), "");
    step(&mut s, Message::LoadNote("c".to_string()), "alpha changed");
    assert!(matches!(&s.confirm_state, ConfirmState::UnsavedWorkBeforeLoad(id) if id == "c"));
    step(&mut s, Message::CancelLoad, "alpha changed");
    assert!(matches!(s.confirm_state, ConfirmState::Idle));
    assert_eq!(s.editing_id.as_deref(), Some("a"));
}

#[test]
fn load_missing_note_only_resets_confirmation() {
    let mut s = sample();
    let o = step(&mut s, Message::LoadNote("zzz".to_string()), "");
    assert!(s.editing_id.is_none());
    assert!(is_keep(&o));
}

#[test]
fn save_edited_note_restamps_and_resorts() {
    let mut s = sample();
    step(&mut s, Message::LoadNote("c".to_string()), "");
    let o = step(&mut s, Message::Save, "gamma v2\n");
    assert_eq!(ids(&s), vec!["c", "a", "b"]);
    assert_eq!(s.notes[0].content, "gamma v2");
    assert_eq!(s.notes[0].timestamp, 100);
    assert!(s.editing_id.is_none());
    let f = o.save.as_ref().unwrap();
    assert_eq!((f.id.as_str(), f.content.as_str()), ("c", "gamma v2"));
    assert!(is_clear(&o));
}

#[test]
fn save_unchanged_edit_writes_nothing() {
    let mut s = sample();
    step(&mut s, Message::LoadNote("b".to_string()), "");
    let o = step(&mut s, Message::Save, "beta");
    assert_eq!(ids(&s), vec!["a", "b", "c"]);
    assert_eq!(s.notes[1].timestamp, 20);
    assert!(o.save.is_none());
    assert!(s.editing_id.is_none());
    assert!(is_clear(&o));
}

#[test]
fn clear_with_unsaved_edit_asks_first() {
    let mut s = sample();
    step(&mut s, Message::LoadNote("a".to_string()), "");
    let o = step(&mut s, Message::Clear, "alpha!!");
    assert!(matches!(s.confirm_state, ConfirmState::UnsavedWorkBeforeClear));
    assert_eq!(s.editing_id.as_deref(), Some("a"));
    assert!(is_keep(&o));
    step(&mut s, Message::CancelConfirm, "alpha!!");
    assert!(matches!(s.confirm_state, ConfirmState::Idle));
}

#[test]
fn clear_without_changes_leaves_editing() {
    let mut s = sample();
    step(&mut s, Message::LoadNote("a".to_string()), "");
    let o = step(&mut s, Message::Clear, "alpha");
    assert!(s.editing_id.is_none());
    assert!(is_clear(&o));
    let o = step(&mut s, Message::Clear, "some new text");
    assert!(is_clear(&o));
}

#[test]
fn delete_asks_then_removes() {
    let mut s = sample();
    step(&mut s, Message::LoadNote("b".to_string()), "");
    step(&mut s, Message::DeleteNote("b".to_string()), "beta");
    assert!(matches!(&s.confirm_state, ConfirmState::DeleteOne(id) if id == "b"));
    assert_eq!(s.notes.len(), 3);
    let o = step(&mut s, Message::ConfirmDeleteNote("b".to_string()), "beta");
    assert_eq!(ids(&s), vec!["a", "c"]);
    assert_eq!(o.delete, vec!["b".to_string()]);
    assert!(s.editing_id.is_none());
    assert!(is_clear(&o));
    assert!(matches!(s.confirm_state, ConfirmState::Idle));
}

#[test]
fn delete_other_note_keeps_editor() {
    let mut s = sample();
    step(&mut s, Message::LoadNote("a".to_string()), "");
    let o = step(&mut s, Message::ConfirmDeleteNote("c".to_string()), "alpha");
    assert_eq!(ids(&s), vec!["a", "b"]);
    assert_eq!(s.editing_id.as_deref(), Some("a"));
    assert!(is_keep(&o));
}

#[test]
fn cancel_undoes_delete_request() {
    let mut s = sample();
    step(&mut s, Message::DeleteNote("a".to_string()), "");
    let o = step(&mut s, Message::CancelConfirm, "");
    assert!(matches!(s.confirm_state, ConfirmState::Idle));
    assert_eq!(ids(&s), vec!["a", "b", "c"]);
    assert!(o.delete.is_empty() && o.save.is_none() && is_keep(&o));
    step(&mut s, Message::DeleteAllNotes, "");
    assert!(matches!(s.confirm_state, ConfirmState::DeleteAll));
    step(&mut s, Message::CancelConfirm, "");
    assert!(matches!(s.confirm_state, ConfirmState::Idle));
    assert_eq!(s.notes.len(), 3);
}

#[test]
fn delete_all_removes_every_note() {
    let mut s = sample();
    step(&mut s, Message::LoadNote("a".to_string()), "");
    step(&mut s, Message::DeleteAllNotes, "alpha");
    let o = step(&mut s, Message::ConfirmDeleteAll, "alpha");
    assert!(s.notes.is_empty());
    assert!(s.editing_id.is_none());
    assert_eq!(o.delete, vec!["a".to_string(), "b".to_string(), "c".to_string()]);
    assert!(is_clear(&o));
}

#[test]
fn search_sets_query_and_keeps_focus() {
    let mut s = sample();
    let o = step(&mut s, Message::SearchChanged("al".to_string()), "");
    assert_eq!(s.search_query, "al");
    assert_eq!(o.task, Task::FocusSearch);
    assert_eq!(s.notes.len(), 3);
    let o = step(&mut s, Message::ClearSearch, "");
    assert_eq!(s.search_query, "");
    assert_eq!(o.task, Task::FocusSearch);
}

#[test]
fn close_saves_new_text_without_listing_it() {
    let mut s = sample();
    let o = step(&mut s, Message::CloseWindow, "unsaved idea\n");
    assert_eq!(o.task, Task::CloseWindow);
    let f = o.save.as_ref().unwrap();
    assert_eq!((f.id.as_str(), f.content.as_str(), f.timestamp), ("fresh", "unsaved idea", 100));
    assert_eq!(s.notes.len(), 3);
}

#[test]
fn close_saves_edited_note_in_place() {
    let mut s = sample();
    step(&mut s, Message::LoadNote("c".to_string()), "");
    let o = step(&mut s, Message::CloseWindow, "gamma edited");
    assert_eq!(o.task, Task::CloseWindow);
    assert_eq!(ids(&s), vec!["a", "b", "c"]);
    assert_eq!(s.notes[2].content, "gamma edited");
    assert_eq!(s.notes[2].timestamp, 100);
    assert_eq!(o.save.as_ref().unwrap().id, "c");
}

#[test]
fn close_with_blank_or_duplicate_writes_nothing() {
    let mut s = sample();
    let o = step(&mut s, Message::CloseWindow, "\n");
    assert!(o.save.is_none());
    assert_eq!(o.task, Task::CloseWindow);
    let o = step(&mut s, Message::CloseWindow, " alpha ");
    assert!(o.save.is_none());
}

#[test]
fn update_uses_clock_and_fresh_uuid() {
    let mut s = sample();
    let o = update(&mut s, Message::Save, "brand new");
    let f = o.save.as_ref().unwrap();
    assert_eq!(f.id.len(), 36);
    assert_eq!(s.notes[0].id, f.id);
    assert!(f.timestamp > 1_600_000_000_000);
}

/// Carries out an outcome on a simulated notes directory.
fn apply(disk: &mut std::collections::BTreeMap<String, (String, i64)>, o: &Outcome) {
    for id in &o.delete {
        disk.remove(id);
    }
    if let Some(f) = &o.save {
        disk.insert(f.id.clone(), (f.content.clone(), f.timestamp));
    }
}

fn matches_disk(s: &AppState, disk: &std::collections::BTreeMap<String, (String, i64)>) -> bool {
    s.notes.len() == disk.len()
        && s.notes.iter().all(|n| disk.get(&n.id) == Some(&(n.content.clone(), n.timestamp)))
}

#[test]
fn files_follow_notes_through_a_session() {
    let mut s = sample();
    let mut disk = std::collections::BTreeMap::new();
    for n in &s.notes {
        disk.insert(n.id.clone(), (n.content.clone(), n.timestamp));
    }
    let script: Vec<(Message, &str, &str)> = vec![
        (Message::Save, "first new", "n1"),
        (Message::LoadNote("b".to_string()), "", "n2"),
        (Message::Save, "beta rewritten", "n3"),
        (Message::Save, "first new", "n4"),
        (Message::DeleteNote("a".to_string()), "", "n5"),
        (Message::ConfirmDeleteNote("a".to_string()), "", "n6"),
        (Message::LoadNote("c".to_string()), "", "n7"),
        (Message::CloseWindow, "gamma at close", "n8"),
        (Message::Save, "second new", "n9"),
    ];
    for (i, (m, editor, id)) in script.into_iter().enumerate() {
        let o = update_with(&mut s, m, editor, 1000 + i as i64, id.to_string());
        apply(&mut disk, &o);
        assert!(matches_disk(&s, &disk), "step {}", i);
    }
    let o = update_with(&mut s, Message::ConfirmDeleteAll, "", 0, "z".to_string());
    apply(&mut disk, &o);
    assert!(disk.is_empty() && s.notes.is_empty());
}

#[test]
fn update_without_writing_ignores_clock_and_ids() {
    let mut s = sample();
    let o = update(&mut s, Message::SearchChanged("be".to_string()), "draft");
    assert_eq!(s.search_query, "be");
    assert_eq!(o.task, Task::FocusSearch);
    assert!(o.save.is_none());
    let o = update(&mut s, Message::DeleteNote("a".to_string()), "");
    assert!(matches!(&s.confirm_state, ConfirmState::DeleteOne(id) if id == "a"));
    assert!(o.save.is_none() && o.delete.is_empty());
}

#[test]
fn discard_clears_unsaved_edit() {
    let mut s = sample();
    step(&mut s, Message::LoadNote("a".to_string()), "");
    step(&mut s, Message::Clear, "alpha!!");
    assert!(matches!(s.confirm_state, ConfirmState::UnsavedWorkBeforeClear));
    let o = step(&mut s, Message::DiscardAndClear, "alpha!!");
    assert!(is_clear(&o));
    assert!(s.editing_id.is_none());
    assert!(matches!(s.confirm_state, ConfirmState::Idle));
    assert!(o.save.is_none() && o.delete.is_empty());
    assert_eq!(s.notes[0].content, "alpha");
}
