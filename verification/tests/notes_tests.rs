use quick_notes::notes::{file_kind, FileKind};
use quick_notes::notes::{
    collect_notes, json_file_name, migrate_legacy, sort_newest_first, txt_file_name, Note, NoteFile,
};

fn note(id: &str, content: &str, timestamp: i64) -> Note {
    Note { id: id.to_string(), content: content.to_string(), timestamp }
}

fn file(id: &str, content: &str, timestamp: i64) -> NoteFile {
    NoteFile { id: id.to_string(), content: content.to_string(), timestamp }
}

fn ids(notes: &[Note]) -> Vec<&str> {
    notes.iter().map(|n| n.id.as_str()).collect()
}

#[test]
fn file_names() {
    assert_eq!(json_file_name("abc"), "abc.json");
    assert_eq!(txt_file_name("abc"), "abc.txt");
}

#[test]
fn new_note_file_has_uuid_id() {
    let f = NoteFile::new("text".to_string());
    assert_eq!(f.content, "text");
    assert_eq!(f.id.len(), 36);
    let parsed = uuid::Uuid::parse_str(&f.id).unwrap();
    assert_eq!(parsed.get_version_num(), 4);
    for (i, c) in f.id.chars().enumerate() {
        if [8, 13, 18, 23].contains(&i) {
            assert_eq!(c, '-');
        } else {
            assert!(c.is_ascii_hexdigit() && !c.is_ascii_uppercase());
        }
    }
    let g = NoteFile::new("text".to_string());
    assert_ne!(f.id, g.id);
}

#[test]
fn legacy_text_migrates_unless_blank() {
    assert!(migrate_legacy("   \n".to_string()).is_none());
    let f = migrate_legacy("old note".to_string()).unwrap();
    assert_eq!(f.content, "old note");
    assert_eq!(f.id.len(), 36);
}

#[test]
fn note_from_file() {
    let n = Note::from(file("x", "body", 7));
    assert_eq!(n.id, "x");
    assert_eq!(n.content, "body");
    assert_eq!(n.timestamp, 7);
}

#[test]
fn sort_is_newest_first_and_stable() {
    let mut v = vec![note("a", "1", 5), note("b", "2", 9), note("c", "3", 5), note("d", "4", 1), note("e", "5", 9)];
    sort_newest_first(&mut v);
    assert_eq!(ids(&v), vec!["b", "e", "a", "c", "d"]);
}

#[test]
fn sort_matches_std_stable_sort() {
    let stamps = [3i64, -1, 3, 7, 0, 7, 7, i64::MIN, i64::MAX, 0];
    let mut v: Vec<Note> = stamps.iter().enumerate().map(|(i, t)| note(&i.to_string(), "x", *t)).collect();
    let mut expect: Vec<(String, i64)> = v.iter().map(|n| (n.id.clone(), n.timestamp)).collect();
    expect.sort_by(|a, b| b.1.cmp(&a.1));
    sort_newest_first(&mut v);
    let got: Vec<(String, i64)> = v.iter().map(|n| (n.id.clone(), n.timestamp)).collect();
    assert_eq!(got, expect);
}

#[test]
fn sorting_sorted_notes_changes_nothing() {
    let mut v = vec![note("a", "1", 9), note("b", "2", 9), note("c", "3", 2)];
    sort_newest_first(&mut v);
    assert_eq!(ids(&v), vec!["a", "b", "c"]);
    let mut empty: Vec<Note> = Vec::new();
    sort_newest_first(&mut empty);
    assert!(empty.is_empty());
}

#[test]
fn collect_drops_blank_and_sorts() {
    let files = vec![file("a", "first", 1), file("b", "  \n ", 50), file("c", "third", 3), file("d", "", 9)];
    let notes = collect_notes(files);
    assert_eq!(ids(&notes), vec!["c", "a"]);
}

#[test]
fn file_kinds_by_extension() {
    assert_eq!(file_kind(Some("json")), FileKind::Note);
    assert_eq!(file_kind(Some("txt")), FileKind::LegacyText);
    assert_eq!(file_kind(Some("JSON")), FileKind::Other);
    assert_eq!(file_kind(Some("jsonl")), FileKind::Other);
    assert_eq!(file_kind(Some("")), FileKind::Other);
    assert_eq!(file_kind(None), FileKind::Other);
}
