//! What holds of the library as a whole: the invariant that every action
//! keeps, what one action undoes of another, and the shape of the texts it
//! produces.
use vstd::prelude::*;
use crate::notes::{
    is_newest_first, lemma_newest_first_is_ordered,
    lemma_newest_first_permutes, newest_first, non_blank_note, NoteView,
};
use crate::state::{
    find_note, has_duplicate, lemma_first_with_id_unique, has_unsaved_work, is_first_with_id, note_ids, quiet,
    step, without_id, AppView, ConfirmView, EditorView, MessageView, OutcomeView,
};
use crate::text::{
    ellipsis, is_blank, is_ws, lead_len, lemma_lead_len_bound, lemma_trail_len_bound,
    newline_pred, non_space_pred, strip_trailing_newlines, trail_len, trimmed, truncated, ws_pred,
};
use crate::outside::lowercase;
use crate::text::{has_substring, lemma_replace_plain_run, replace_newlines, newline_marker};
use crate::view::{matching, rows_of, view_of, DialogView, EmptyNotice, Header, PREVIEW_CHARS};

verus! {

// ---------------------------------------------------------------------------
// The state invariant.

/// No note has a blank text.
pub open spec fn all_non_blank(notes: Seq<NoteView>) -> bool {
    forall|i: int| 0 <= i < notes.len() ==> !is_blank(#[trigger] notes[i].content)
}

/// The note that the editor holds, if any, is in the list.
pub open spec fn open_note_listed(s: AppView) -> bool {
    s.editing_id matches Some(e) ==> exists|i: int| 0 <= i < s.notes.len() && #[trigger] s.notes[i].id == e
}

/// The invariant of the application's state.
pub open spec fn well_formed(s: AppView) -> bool {
    all_non_blank(s.notes) && open_note_listed(s)
}

proof fn lemma_sorted_members(s: Seq<NoteView>, k: int)
    requires
        0 <= k < newest_first(s).len(),
    ensures
        s.contains(newest_first(s)[k]),
{
    broadcast use vstd::seq_lib::group_to_multiset_ensures;

    lemma_newest_first_permutes(s);
    assert(newest_first(s).contains(newest_first(s)[k]));
    assert(newest_first(s).to_multiset().count(newest_first(s)[k]) > 0);
}

proof fn lemma_filter_members(s: Seq<NoteView>, p: spec_fn(NoteView) -> bool, k: int)
    requires
        0 <= k < s.filter(p).len(),
    ensures
        s.contains(s.filter(p)[k]),
{
    assert(s.filter(p).contains(s.filter(p)[k]));
    s.lemma_filter_contains_rev(p, s.filter(p)[k]);
}

proof fn lemma_all_non_blank_sorted(s: Seq<NoteView>)
    requires
        all_non_blank(s),
    ensures
        all_non_blank(newest_first(s)),
{
    assert forall|k: int| 0 <= k < newest_first(s).len() implies !is_blank(
        #[trigger] newest_first(s)[k].content,
    ) by {
        lemma_sorted_members(s, k);
    }
}

proof fn lemma_found_note(notes: Seq<NoteView>, id: Seq<char>)
    requires
        find_note(notes, id) is Some,
    ensures
        is_first_with_id(notes, id, find_note(notes, id)->0),
{
}

/// Every action keeps the state well formed: no note has a blank text, and
/// the note open in the editor is in the list.
pub proof fn lemma_step_keeps_well_formed(
    s: AppView,
    m: MessageView,
    editor: Seq<char>,
    now: i64,
    fresh_id: Seq<char>,
)
    requires
        well_formed(s),
    ensures
        well_formed(step(s, m, editor, now, fresh_id).0),
{
    let content = strip_trailing_newlines(editor);
    let r = step(s, m, editor, now, fresh_id).0;
    match m {
        MessageView::Save => {
            if !is_blank(content) && s.editing_id is Some {
                let found = find_note(s.notes, s.editing_id->0);
                if found is Some && s.notes[found->0].content != content {
                    let i = found->0;
                    lemma_found_note(s.notes, s.editing_id->0);
                    let edited = NoteView { id: s.notes[i].id, content, timestamp: now };
                    let u = s.notes.update(i, edited);
                    assert(all_non_blank(u));
                    lemma_all_non_blank_sorted(u);
                }
            } else if !is_blank(content) && !has_duplicate(s.notes, content) {
                let created = NoteView { id: fresh_id, content, timestamp: now };
                assert(r.notes =~= seq![created] + s.notes);
                assert forall|k: int| 0 <= k < r.notes.len() implies !is_blank(
                    #[trigger] r.notes[k].content,
                ) by {
                    if k > 0 {
                        assert(r.notes[k] == s.notes[k - 1]);
                    }
                }
            }
        },
        MessageView::LoadNote(id) => {
            if find_note(s.notes, id) is Some {
                lemma_found_note(s.notes, id);
            }
        },
        MessageView::ConfirmLoad(id) => {
            if find_note(s.notes, id) is Some {
                lemma_found_note(s.notes, id);
            }
        },
        MessageView::ConfirmDeleteNote(id) => {
            let kept = s.notes.filter(without_id(id));
            assert forall|k: int| 0 <= k < kept.len() implies !is_blank(#[trigger] kept[k].content) by {
                lemma_filter_members(s.notes, without_id(id), k);
            }
            if s.editing_id is Some && s.editing_id != Some(id) {
                let e = s.editing_id->0;
                let j = choose|j: int| 0 <= j < s.notes.len() && #[trigger] s.notes[j].id == e;
                s.notes.lemma_filter_contains(without_id(id), j);
                let k = choose|k: int| 0 <= k < kept.len() && kept[k] == s.notes[j];
                assert(kept[k].id == e);
            }
        },
        MessageView::CloseWindow => {
            if !is_blank(content) && s.editing_id is Some {
                let found = find_note(s.notes, s.editing_id->0);
                if found is Some && s.notes[found->0].content != content {
                    let i = found->0;
                    let e = s.editing_id->0;
                    lemma_found_note(s.notes, e);
                    let j = choose|j: int| 0 <= j < s.notes.len() && #[trigger] s.notes[j].id == e;
                    assert(r.notes[j].id == e);
                }
            }
        },
        _ => {},
    }
}

/// Notes read from files form a well-formed state, whatever the files hold.
pub proof fn lemma_collected_notes_well_formed(files: Seq<NoteView>)
    ensures
        all_non_blank(newest_first(files.filter(non_blank_note()))),
        is_newest_first(newest_first(files.filter(non_blank_note()))),
{
    let kept = files.filter(non_blank_note());
    assert forall|k: int| 0 <= k < kept.len() implies !is_blank(#[trigger] kept[k].content) by {
        files.lemma_filter_pred(non_blank_note(), k);
    }
    lemma_all_non_blank_sorted(kept);
    lemma_newest_first_is_ordered(kept);
}

// ---------------------------------------------------------------------------
// Memory and disk.

/// No two notes share an identifier.
pub open spec fn ids_unique(notes: Seq<NoteView>) -> bool {
    forall|i: int, j: int| 0 <= i < j < notes.len() ==> notes[i].id != notes[j].id
}

/// The note files, keyed by identifier, hold exactly the listed notes.
pub open spec fn files_match(notes: Seq<NoteView>, disk: Map<Seq<char>, NoteView>) -> bool {
    &&& ids_unique(notes)
    &&& forall|k: Seq<char>|
        disk.dom().contains(k) <==> exists|i: int| 0 <= i < notes.len() && #[trigger] notes[i].id == k
    &&& forall|i: int| 0 <= i < notes.len() ==> disk[#[trigger] notes[i].id] == notes[i]
}

/// The note files after the surroundings carried out `out`: the listed
/// files removed, then the saved file written.
pub open spec fn apply_files(disk: Map<Seq<char>, NoteView>, out: OutcomeView) -> Map<
    Seq<char>,
    NoteView,
> {
    let kept = Map::new(
        |k: Seq<char>| disk.dom().contains(k) && !out.delete.contains(k),
        |k: Seq<char>| disk[k],
    );
    match out.save {
        Some(f) => kept.insert(f.id, f),
        None => kept,
    }
}

proof fn lemma_unique_ids_no_duplicates(a: Seq<NoteView>)
    requires
        ids_unique(a),
    ensures
        a.no_duplicates(),
{
    assert forall|i: int, j: int| 0 <= i < a.len() && 0 <= j < a.len() && i != j implies a[i]
        != a[j] by {
        if i < j {
            assert(a[i].id != a[j].id);
        } else {
            assert(a[j].id != a[i].id);
        }
    }
}

/// A duplicate-free list made of notes of a matching list matches the
/// files of its own identifiers.
proof fn lemma_files_match_members(
    a: Seq<NoteView>,
    b: Seq<NoteView>,
    disk: Map<Seq<char>, NoteView>,
    disk2: Map<Seq<char>, NoteView>,
)
    requires
        files_match(a, disk),
        b.no_duplicates(),
        forall|x: NoteView| b.contains(x) ==> a.contains(x),
        forall|k: Seq<char>|
            disk2.dom().contains(k) <==> exists|j: int| 0 <= j < b.len() && #[trigger] b[j].id == k,
        forall|k: Seq<char>| disk2.dom().contains(k) ==> disk2[k] == disk[k],
    ensures
        files_match(b, disk2),
{
    assert forall|j: int| 0 <= j < b.len() implies exists|p: int|
        0 <= p < a.len() && a[p] == #[trigger] b[j] by {
        assert(b.contains(b[j]));
    }
    assert forall|i: int, j: int| 0 <= i < j < b.len() implies b[i].id != b[j].id by {
        let p = choose|p: int| 0 <= p < a.len() && a[p] == b[i];
        let q = choose|q: int| 0 <= q < a.len() && a[q] == b[j];
        assert(b[i] != b[j]);
        if p < q {
            assert(a[p].id != a[q].id);
        } else if q < p {
            assert(a[q].id != a[p].id);
        }
    }
    assert forall|j: int| 0 <= j < b.len() implies disk2[#[trigger] b[j].id] == b[j] by {
        let p = choose|p: int| 0 <= p < a.len() && a[p] == b[j];
        assert(disk2.dom().contains(b[j].id));
        assert(disk[a[p].id] == a[p]);
    }
}

/// Replacing note `i` by a note with the same identifier, and writing its
/// file, keeps memory and disk in step.
proof fn lemma_files_match_update(
    a: Seq<NoteView>,
    disk: Map<Seq<char>, NoteView>,
    i: int,
    e: NoteView,
)
    requires
        files_match(a, disk),
        0 <= i < a.len(),
        e.id == a[i].id,
    ensures
        files_match(a.update(i, e), disk.insert(e.id, e)),
{
    let u = a.update(i, e);
    let d = disk.insert(e.id, e);
    assert forall|k: Seq<char>| d.dom().contains(k) <==> exists|j: int|
        0 <= j < u.len() && #[trigger] u[j].id == k by {
        if d.dom().contains(k) {
            if k == e.id {
                assert(u[i].id == k);
            } else {
                let j = choose|j: int| 0 <= j < a.len() && #[trigger] a[j].id == k;
                assert(u[j].id == k);
            }
        }
        if exists|j: int| 0 <= j < u.len() && #[trigger] u[j].id == k {
            let j = choose|j: int| 0 <= j < u.len() && #[trigger] u[j].id == k;
            if j != i {
                assert(a[j].id == k);
            }
        }
    }
    assert forall|j: int| 0 <= j < u.len() implies d[#[trigger] u[j].id] == u[j] by {
        if j != i {
            if j < i {
                assert(a[j].id != a[i].id);
            } else {
                assert(a[i].id != a[j].id);
            }
        }
    }
}

proof fn lemma_filter_no_duplicates(s: Seq<NoteView>, p: spec_fn(NoteView) -> bool)
    requires
        s.no_duplicates(),
    ensures
        s.filter(p).no_duplicates(),
    decreases s.len(),
{
    reveal(Seq::filter);
    if s.len() > 0 {
        let rest = s.drop_last();
        assert(rest.no_duplicates()) by {
            assert forall|i: int, j: int|
                0 <= i < rest.len() && 0 <= j < rest.len() && i != j implies rest[i] != rest[j] by {
                assert(rest[i] == s[i] && rest[j] == s[j]);
            }
        }
        lemma_filter_no_duplicates(rest, p);
        if p(s.last()) {
            let f = rest.filter(p);
            assert forall|k: int| 0 <= k < f.len() implies #[trigger] f[k] != s.last() by {
                lemma_filter_members(rest, p, k);
                let q = choose|q: int| 0 <= q < rest.len() && rest[q] == f[k];
                assert(s[q] == rest[q]);
            }
            let g = f.push(s.last());
            assert forall|i: int, j: int| 0 <= i < g.len() && 0 <= j < g.len() && i != j implies g[i]
                != g[j] by {
                if i < f.len() && j < f.len() {
                    assert(g[i] == f[i] && g[j] == f[j]);
                } else if i < f.len() {
                    assert(g[i] == f[i]);
                } else if j < f.len() {
                    assert(g[j] == f[j]);
                }
            }
        }
    }
}

proof fn lemma_sorted_same_members(u: Seq<NoteView>)
    requires
        u.no_duplicates(),
    ensures
        newest_first(u).no_duplicates(),
        forall|x: NoteView| newest_first(u).contains(x) ==> u.contains(x),
{
    broadcast use vstd::seq_lib::group_to_multiset_ensures;

    lemma_newest_first_permutes(u);
    u.lemma_multiset_has_no_duplicates();
    newest_first(u).lemma_multiset_has_no_duplicates_conv();
    assert forall|x: NoteView| newest_first(u).contains(x) implies u.contains(x) by {
        assert(newest_first(u).to_multiset().count(x) > 0);
    }
}

proof fn lemma_sorted_has_every_note(u: Seq<NoteView>, j: int)
    requires
        0 <= j < u.len(),
    ensures
        newest_first(u).contains(u[j]),
{
    broadcast use vstd::seq_lib::group_to_multiset_ensures;

    lemma_newest_first_permutes(u);
    assert(u.contains(u[j]));
    assert(u.to_multiset().count(u[j]) > 0);
}

/// Carrying out what an action asks keeps the note files equal to the
/// listed notes, provided a newly created note gets an identifier that no
/// note has yet. Closing the window with a new text is the exception: that
/// text is written as the window goes away and is not listed.
pub proof fn lemma_files_follow_notes(
    s: AppView,
    m: MessageView,
    editor: Seq<char>,
    now: i64,
    fresh_id: Seq<char>,
    disk: Map<Seq<char>, NoteView>,
)
    requires
        files_match(s.notes, disk),
        forall|i: int| 0 <= i < s.notes.len() ==> #[trigger] s.notes[i].id != fresh_id,
        !(m is CloseWindow && s.editing_id is None),
    ensures
        ({
            let (r, out) = step(s, m, editor, now, fresh_id);
            files_match(r.notes, apply_files(disk, out))
        }),
{
    let content = strip_trailing_newlines(editor);
    let (r, out) = step(s, m, editor, now, fresh_id);
    let d2 = apply_files(disk, out);
    let kept = Map::new(
        |k: Seq<char>| disk.dom().contains(k) && !out.delete.contains(k),
        |k: Seq<char>| disk[k],
    );
    if out.delete.len() == 0 {
        assert(kept =~= disk);
    }
    match m {
        MessageView::Save => {
            if !is_blank(content) && s.editing_id is Some {
                let found = find_note(s.notes, s.editing_id->0);
                if found is Some && s.notes[found->0].content != content {
                    let i = found->0;
                    lemma_found_note(s.notes, s.editing_id->0);
                    let e = out.save->0;
                    let u = s.notes.update(i, e);
                    lemma_files_match_update(s.notes, disk, i, e);
                    lemma_unique_ids_no_duplicates(u);
                    lemma_sorted_same_members(u);
                    assert forall|k: Seq<char>| d2.dom().contains(k) <==> exists|j: int|
                        0 <= j < r.notes.len() && #[trigger] r.notes[j].id == k by {
                        if d2.dom().contains(k) {
                            let j = choose|j: int| 0 <= j < u.len() && #[trigger] u[j].id == k;
                            lemma_sorted_has_every_note(u, j);
                            let q = choose|q: int| 0 <= q < r.notes.len() && r.notes[q] == u[j];
                            assert(r.notes[q].id == k);
                        }
                        if exists|j: int| 0 <= j < r.notes.len() && #[trigger] r.notes[j].id == k {
                            let j = choose|j: int| 0 <= j < r.notes.len() && #[trigger] r.notes[j].id == k;
                            assert(r.notes.contains(r.notes[j]));
                            assert(u.contains(r.notes[j]));
                            let q = choose|q: int| 0 <= q < u.len() && u[q] == r.notes[j];
                            assert(u[q].id == k);
                        }
                    }
                    lemma_files_match_members(u, r.notes, d2, d2);
                }
            } else if !is_blank(content) && !has_duplicate(s.notes, content) {
                let c = out.save->0;
                assert(r.notes =~= seq![c] + s.notes);
                assert forall|i: int, j: int| 0 <= i < j < r.notes.len() implies r.notes[i].id
                    != r.notes[j].id by {
                    if i > 0 {
                        assert(r.notes[i] == s.notes[i - 1]);
                    }
                    assert(r.notes[j] == s.notes[j - 1]);
                }
                assert forall|k: Seq<char>| d2.dom().contains(k) <==> exists|j: int|
                    0 <= j < r.notes.len() && #[trigger] r.notes[j].id == k by {
                    if d2.dom().contains(k) && k != fresh_id {
                        let j = choose|j: int| 0 <= j < s.notes.len() && #[trigger] s.notes[j].id == k;
                        assert(r.notes[j + 1].id == k);
                    }
                    if d2.dom().contains(k) && k == fresh_id {
                        assert(r.notes[0].id == k);
                    }
                    if exists|j: int| 0 <= j < r.notes.len() && #[trigger] r.notes[j].id == k {
                        let j = choose|j: int| 0 <= j < r.notes.len() && #[trigger] r.notes[j].id == k;
                        if j > 0 {
                            assert(s.notes[j - 1].id == k);
                        }
                    }
                }
                assert forall|j: int| 0 <= j < r.notes.len() implies d2[#[trigger] r.notes[j].id]
                    == r.notes[j] by {
                    if j > 0 {
                        assert(r.notes[j] == s.notes[j - 1]);
                    }
                }
            }
        },
        MessageView::ConfirmDeleteNote(id) => {
            let f = s.notes.filter(without_id(id));
            assert(out.delete == seq![id]);
            assert(d2 == kept);
            lemma_unique_ids_no_duplicates(s.notes);
            lemma_filter_no_duplicates(s.notes, without_id(id));
            assert forall|x: NoteView| f.contains(x) implies s.notes.contains(x) by {
                s.notes.lemma_filter_contains_rev(without_id(id), x);
            }
            assert forall|k: Seq<char>| d2.dom().contains(k) <==> exists|j: int|
                0 <= j < f.len() && #[trigger] f[j].id == k by {
                if d2.dom().contains(k) {
                    if k == id {
                        assert(out.delete[0] == id);
                        assert(out.delete.contains(id));
                    }
                    let p = choose|p: int| 0 <= p < s.notes.len() && #[trigger] s.notes[p].id == k;
                    s.notes.lemma_filter_contains(without_id(id), p);
                    let q = choose|q: int| 0 <= q < f.len() && f[q] == s.notes[p];
                    assert(f[q].id == k);
                }
                if exists|j: int| 0 <= j < f.len() && #[trigger] f[j].id == k {
                    let j = choose|j: int| 0 <= j < f.len() && #[trigger] f[j].id == k;
                    s.notes.lemma_filter_pred(without_id(id), j);
                    assert(f.contains(f[j]));
                    let p = choose|p: int| 0 <= p < s.notes.len() && s.notes[p] == f[j];
                    assert(s.notes[p].id == k);
                    assert(!out.delete.contains(k)) by {
                        if out.delete.contains(k) {
                            assert(out.delete[0] == k);
                        }
                    }
                }
            }
            lemma_files_match_members(s.notes, f, disk, d2);
        },
        MessageView::ConfirmDeleteAll => {
            assert forall|k: Seq<char>| !d2.dom().contains(k) by {
                if disk.dom().contains(k) {
                    let p = choose|p: int| 0 <= p < s.notes.len() && #[trigger] s.notes[p].id == k;
                    assert(note_ids(s.notes)[p] == k);
                }
            }
        },
        MessageView::CloseWindow => {
            if !is_blank(content) {
                let found = find_note(s.notes, s.editing_id->0);
                if found is Some && s.notes[found->0].content != content {
                    lemma_found_note(s.notes, s.editing_id->0);
                    lemma_files_match_update(s.notes, disk, found->0, out.save->0);
                }
            }
        },
        _ => {},
    }
}

/// Reading back note files that hold exactly some notes, none blank, gives
/// those same notes, newest first, still matching the files.
pub proof fn lemma_reading_back_matches_files(files: Seq<NoteView>, disk: Map<Seq<char>, NoteView>)
    requires
        files_match(files, disk),
        all_non_blank(files),
    ensures
        files.filter(non_blank_note()) == files,
        files_match(newest_first(files), disk),
{
    assert(files.all(non_blank_note()));
    lemma_filter_all(files, non_blank_note());
    lemma_unique_ids_no_duplicates(files);
    lemma_sorted_same_members(files);
    assert forall|k: Seq<char>| disk.dom().contains(k) <==> exists|j: int|
        0 <= j < newest_first(files).len() && #[trigger] newest_first(files)[j].id == k by {
        if disk.dom().contains(k) {
            let p = choose|p: int| 0 <= p < files.len() && #[trigger] files[p].id == k;
            lemma_sorted_has_every_note(files, p);
            let q = choose|q: int| 0 <= q < newest_first(files).len() && newest_first(files)[q] == files[p];
            assert(newest_first(files)[q].id == k);
        }
        if exists|j: int| 0 <= j < newest_first(files).len() && #[trigger] newest_first(files)[j].id == k {
            let j = choose|j: int| 0 <= j < newest_first(files).len() && #[trigger] newest_first(files)[j].id == k;
            assert(newest_first(files).contains(newest_first(files)[j]));
            assert(files.contains(newest_first(files)[j]));
            let p = choose|p: int| 0 <= p < files.len() && files[p] == newest_first(files)[j];
            assert(files[p].id == k);
        }
    }
    lemma_files_match_members(files, newest_first(files), disk, disk);
}

// ---------------------------------------------------------------------------
// Single actions.

/// Saving a blank editor changes nothing.
pub proof fn lemma_blank_save_changes_nothing(
    s: AppView,
    editor: Seq<char>,
    now: i64,
    fresh_id: Seq<char>,
)
    requires
        is_blank(strip_trailing_newlines(editor)),
    ensures
        step(s, MessageView::Save, editor, now, fresh_id) == (s, quiet()),
{
}

/// A saved note file is the note the list now holds: what is written to
/// disk equals what is kept in memory.
pub proof fn lemma_saved_file_is_listed(
    s: AppView,
    editor: Seq<char>,
    now: i64,
    fresh_id: Seq<char>,
)
    ensures
        ({
            let (r, out) = step(s, MessageView::Save, editor, now, fresh_id);
            out.save matches Some(f) ==> r.notes.contains(f) && f.content
                == strip_trailing_newlines(editor) && f.timestamp == now
        }),
{
    let content = strip_trailing_newlines(editor);
    let (r, out) = step(s, MessageView::Save, editor, now, fresh_id);
    if out.save is Some {
        let f = out.save->0;
        if s.editing_id is Some {
            let i = find_note(s.notes, s.editing_id->0)->0;
            let u = s.notes.update(i, f);
            broadcast use vstd::seq_lib::group_to_multiset_ensures;

            lemma_newest_first_permutes(u);
            assert(u[i] == f);
            assert(u.contains(f));
            assert(u.to_multiset().count(f) > 0);
        } else {
            assert(r.notes[0] == f);
        }
    }
}

/// Saving a text while no note is open never adds a note whose trimmed text
/// another note already has; it adds the text as a new first note otherwise.
pub proof fn lemma_save_new_never_duplicates(
    s: AppView,
    editor: Seq<char>,
    now: i64,
    fresh_id: Seq<char>,
)
    requires
        s.editing_id is None,
    ensures
        ({
            let content = strip_trailing_newlines(editor);
            let r = step(s, MessageView::Save, editor, now, fresh_id).0;
            if is_blank(content) || has_duplicate(s.notes, content) {
                r.notes == s.notes
            } else {
                r.notes == seq![NoteView { id: fresh_id, content, timestamp: now }] + s.notes
            }
        }),
{
}

/// Confirming a deletion removes every note with that identifier and keeps
/// every other note, in order; its file is the one to remove.
pub proof fn lemma_delete_removes_only_that_note(
    s: AppView,
    id: Seq<char>,
    editor: Seq<char>,
    now: i64,
    fresh_id: Seq<char>,
)
    ensures
        ({
            let (r, out) = step(s, MessageView::ConfirmDeleteNote(id), editor, now, fresh_id);
            &&& forall|k: int| 0 <= k < r.notes.len() ==> #[trigger] r.notes[k].id != id
            &&& forall|k: int|
                0 <= k < s.notes.len() && s.notes[k].id != id ==> r.notes.contains(
                    #[trigger] s.notes[k],
                )
            &&& out.delete == seq![id]
            &&& r.confirm == ConfirmView::Idle
        }),
{
    let r = step(s, MessageView::ConfirmDeleteNote(id), editor, now, fresh_id).0;
    assert forall|k: int| 0 <= k < r.notes.len() implies #[trigger] r.notes[k].id != id by {
        s.notes.lemma_filter_pred(without_id(id), k);
    }
    assert forall|k: int| 0 <= k < s.notes.len() && s.notes[k].id != id implies r.notes.contains(
        #[trigger] s.notes[k],
    ) by {
        s.notes.lemma_filter_contains(without_id(id), k);
    }
}

/// Confirming "delete all" empties the list, closes the editor and removes
/// the file of every note.
pub proof fn lemma_delete_all_empties(
    s: AppView,
    editor: Seq<char>,
    now: i64,
    fresh_id: Seq<char>,
)
    ensures
        ({
            let (r, out) = step(s, MessageView::ConfirmDeleteAll, editor, now, fresh_id);
            &&& r.notes.len() == 0
            &&& r.editing_id is None
            &&& out.delete == note_ids(s.notes)
            &&& out.delete.len() == s.notes.len()
            &&& forall|k: int| 0 <= k < s.notes.len() ==> #[trigger] out.delete[k] == s.notes[k].id
            &&& out.editor == EditorView::Clear
            &&& out.save is None
        }),
{
}

/// Typing in the search field or clearing it never touches the notes, the
/// editor or a pending confirmation.
pub proof fn lemma_search_leaves_notes(
    s: AppView,
    q: Seq<char>,
    editor: Seq<char>,
    now: i64,
    fresh_id: Seq<char>,
)
    ensures
        ({
            let (r, out) = step(s, MessageView::SearchChanged(q), editor, now, fresh_id);
            r == AppView { search_query: q, ..s } && out.editor == EditorView::Keep
                && out.save is None && out.delete.len() == 0
        }),
        ({
            let (r, out) = step(s, MessageView::ClearSearch, editor, now, fresh_id);
            r == AppView { search_query: Seq::empty(), ..s } && out.editor == EditorView::Keep
                && out.save is None && out.delete.len() == 0
        }),
{
}

/// Discarding unsaved work empties the editor, closes the open note and
/// ends the confirmation, without writing or removing a file or touching
/// a note.
pub proof fn lemma_discard_clears_editor(
    s: AppView,
    editor: Seq<char>,
    now: i64,
    fresh_id: Seq<char>,
)
    ensures
        ({
            let (r, out) = step(s, MessageView::DiscardAndClear, editor, now, fresh_id);
            &&& r.notes == s.notes
            &&& r.editing_id is None
            &&& r.confirm == ConfirmView::Idle
            &&& out.editor == EditorView::Clear
            &&& out.save is None
            &&& out.delete.len() == 0
        }),
{
}

// ---------------------------------------------------------------------------
// Unsaved edits.

proof fn lemma_first_is_found(notes: Seq<NoteView>, id: Seq<char>, i: int)
    requires
        is_first_with_id(notes, id, i),
    ensures
        find_note(notes, id) == Some(i),
{
    let k = choose|k: int| is_first_with_id(notes, id, k);
    lemma_first_with_id_unique(notes, id, i, k);
}

/// Saving with a listed note open, whose text differs in any way from the
/// editor's non-blank text, writes that note's file with the editor's text
/// and the current time, keeps the edited note in the list (which loses and
/// gains no other note count), empties the editor and leaves no note open.
pub proof fn lemma_save_writes_edited_note(
    s: AppView,
    editor: Seq<char>,
    now: i64,
    fresh_id: Seq<char>,
    i: int,
)
    requires
        s.editing_id is Some,
        is_first_with_id(s.notes, s.editing_id->0, i),
        !is_blank(strip_trailing_newlines(editor)),
        s.notes[i].content != strip_trailing_newlines(editor),
    ensures
        ({
            let (r, out) = step(s, MessageView::Save, editor, now, fresh_id);
            let edited = NoteView {
                id: s.notes[i].id,
                content: strip_trailing_newlines(editor),
                timestamp: now,
            };
            &&& out.save == Some(edited)
            &&& r.notes.contains(edited)
            &&& r.notes.len() == s.notes.len()
            &&& r.editing_id is None
            &&& out.editor == EditorView::Clear
        }),
{
    broadcast use vstd::seq_lib::group_to_multiset_ensures;

    lemma_first_is_found(s.notes, s.editing_id->0, i);
    let edited = NoteView { id: s.notes[i].id, content: strip_trailing_newlines(editor), timestamp: now };
    let u = s.notes.update(i, edited);
    lemma_newest_first_permutes(u);
    assert(u[i] == edited);
    assert(u.contains(edited));
    assert(u.to_multiset().count(edited) > 0);
    assert(newest_first(u).len() == newest_first(u).to_multiset().len());
}

/// Closing the window with a listed note open, whose text differs in any
/// way from the editor's non-blank text, writes that note's file with the
/// editor's text and the current time and puts the edited note in its place.
pub proof fn lemma_close_writes_edited_note(
    s: AppView,
    editor: Seq<char>,
    now: i64,
    fresh_id: Seq<char>,
    i: int,
)
    requires
        s.editing_id is Some,
        is_first_with_id(s.notes, s.editing_id->0, i),
        !is_blank(strip_trailing_newlines(editor)),
        s.notes[i].content != strip_trailing_newlines(editor),
    ensures
        ({
            let (r, out) = step(s, MessageView::CloseWindow, editor, now, fresh_id);
            let edited = NoteView {
                id: s.notes[i].id,
                content: strip_trailing_newlines(editor),
                timestamp: now,
            };
            &&& out.save == Some(edited)
            &&& out.task == crate::state::Task::CloseWindow
            &&& r.notes.len() == s.notes.len()
            &&& r.notes[i] == edited
            &&& forall|k: int| 0 <= k < s.notes.len() && k != i ==> r.notes[k] == s.notes[k]
        }),
{
    lemma_first_is_found(s.notes, s.editing_id->0, i);
}

/// Asking to load a note while the editor holds work that would be lost
/// (an open, listed note whose text differs in any way from the editor's, or
/// a non-blank text with no note open) only asks for confirmation: the
/// notes, the open note and the editor stay as they are.
pub proof fn lemma_load_asks_before_losing_work(
    s: AppView,
    id: Seq<char>,
    editor: Seq<char>,
    now: i64,
    fresh_id: Seq<char>,
    i: int,
)
    requires
        s.editing_id is Some ==> is_first_with_id(s.notes, s.editing_id->0, i) && s.notes[i].content
            != strip_trailing_newlines(editor),
        s.editing_id is None ==> !is_blank(strip_trailing_newlines(editor)),
    ensures
        ({
            let (r, out) = step(s, MessageView::LoadNote(id), editor, now, fresh_id);
            &&& r.confirm == ConfirmView::UnsavedWorkBeforeLoad(id)
            &&& r.notes == s.notes
            &&& r.editing_id == s.editing_id
            &&& r.search_query == s.search_query
            &&& out.editor == EditorView::Keep
            &&& out.save is None
            &&& out.delete.len() == 0
        }),
{
    if s.editing_id is Some {
        lemma_first_is_found(s.notes, s.editing_id->0, i);
    }
}

/// Clearing while a listed note is open whose text differs in any way from
/// the editor's non-blank text only asks for confirmation: the notes, the
/// open note and the editor stay as they are.
pub proof fn lemma_clear_asks_before_losing_edit(
    s: AppView,
    editor: Seq<char>,
    now: i64,
    fresh_id: Seq<char>,
    i: int,
)
    requires
        s.editing_id is Some,
        is_first_with_id(s.notes, s.editing_id->0, i),
        !is_blank(strip_trailing_newlines(editor)),
        s.notes[i].content != strip_trailing_newlines(editor),
    ensures
        ({
            let (r, out) = step(s, MessageView::Clear, editor, now, fresh_id);
            &&& r.confirm == ConfirmView::UnsavedWorkBeforeClear
            &&& r.notes == s.notes
            &&& r.editing_id == s.editing_id
            &&& out.editor == EditorView::Keep
            &&& out.save is None
            &&& out.delete.len() == 0
        }),
{
    lemma_first_is_found(s.notes, s.editing_id->0, i);
}

// ---------------------------------------------------------------------------
// Search.

/// The search text is empty or occurs, lower-cased, as a contiguous run
/// anywhere in the lower-cased whole text of note `k`.
pub open spec fn query_found_in(s: AppView, k: int) -> bool {
    s.search_query.len() == 0 || has_substring(lowercase(s.notes[k].content), lowercase(s.search_query))
}

/// Some row of the list shows the note with identifier `id`.
pub open spec fn has_row(s: AppView, id: Seq<char>) -> bool {
    exists|j: int| 0 <= j < rows_of(s).len() && #[trigger] rows_of(s)[j].id == id
}

/// Row `j` shows a note in which the search text is found.
pub open spec fn row_is_match(s: AppView, j: int) -> bool {
    exists|k: int| 0 <= k < s.notes.len() && rows_of(s)[j].id == s.notes[k].id && #[trigger] query_found_in(s, k)
}

/// The search lists a note exactly when the search is empty or its
/// lower-cased text occurs, as a contiguous run, anywhere in the note's
/// whole lower-cased text: every such note has a row, and every row is
/// such a note.
pub proof fn lemma_search_lists_matching_notes(s: AppView)
    ensures
        forall|k: int| 0 <= k < s.notes.len() && #[trigger] query_found_in(s, k) ==> has_row(s, s.notes[k].id),
        forall|j: int| 0 <= j < rows_of(s).len() ==> #[trigger] row_is_match(s, j),
{
    let p = matching(s.search_query);
    let f = s.notes.filter(p);
    assert forall|k: int| 0 <= k < s.notes.len() && #[trigger] query_found_in(s, k) implies has_row(
        s,
        s.notes[k].id,
    ) by {
        assert(p(s.notes[k]));
        s.notes.lemma_filter_contains(p, k);
        let j = choose|j: int| 0 <= j < f.len() && f[j] == s.notes[k];
        assert(rows_of(s)[j].id == f[j].id);
    }
    assert forall|j: int| 0 <= j < rows_of(s).len() implies #[trigger] row_is_match(s, j) by {
        s.notes.lemma_filter_pred(p, j);
        assert(f.contains(f[j]));
        s.notes.lemma_filter_contains_rev(p, f[j]);
        let k = choose|k: int| 0 <= k < s.notes.len() && s.notes[k] == f[j];
        assert(rows_of(s)[j].id == s.notes[k].id);
        assert(query_found_in(s, k));
    }
}

// ---------------------------------------------------------------------------
// Further actions, stated over their inputs.

/// Saving a non-blank text with no note open adds it, with a fresh
/// identifier and the current time, as the first note and writes its file,
/// unless some note's trimmed text equals the trimmed text; then nothing is
/// written and the list is unchanged. The editor is emptied in both cases.
pub proof fn lemma_save_new_note(s: AppView, editor: Seq<char>, now: i64, fresh_id: Seq<char>)
    requires
        s.editing_id is None,
        !is_blank(strip_trailing_newlines(editor)),
    ensures
        ({
            let content = strip_trailing_newlines(editor);
            let (r, out) = step(s, MessageView::Save, editor, now, fresh_id);
            let created = NoteView { id: fresh_id, content, timestamp: now };
            &&& out.editor == EditorView::Clear
            &&& r.editing_id is None
            &&& (forall|k: int| 0 <= k < s.notes.len() ==> trimmed(#[trigger] s.notes[k].content) != trimmed(content))
                ==> r.notes == seq![created] + s.notes && out.save == Some(created)
            &&& (exists|k: int| 0 <= k < s.notes.len() && trimmed(#[trigger] s.notes[k].content) == trimmed(content))
                ==> r.notes == s.notes && out.save is None
        }),
{
}

/// Closing the window with a non-blank text and no note open writes it as a
/// new note file (fresh identifier, current time) unless some note's trimmed
/// text equals its trimmed text; the list itself is not changed.
pub proof fn lemma_close_writes_new_text(s: AppView, editor: Seq<char>, now: i64, fresh_id: Seq<char>)
    requires
        s.editing_id is None,
        !is_blank(strip_trailing_newlines(editor)),
    ensures
        ({
            let content = strip_trailing_newlines(editor);
            let (r, out) = step(s, MessageView::CloseWindow, editor, now, fresh_id);
            &&& out.task == crate::state::Task::CloseWindow
            &&& r.notes == s.notes
            &&& (forall|k: int| 0 <= k < s.notes.len() ==> trimmed(#[trigger] s.notes[k].content) != trimmed(content))
                ==> out.save == Some(NoteView { id: fresh_id, content, timestamp: now })
            &&& (exists|k: int| 0 <= k < s.notes.len() && trimmed(#[trigger] s.notes[k].content) == trimmed(content))
                ==> out.save is None
        }),
{
}

/// Closing the window with a blank editor writes nothing and changes nothing.
pub proof fn lemma_close_blank_writes_nothing(s: AppView, editor: Seq<char>, now: i64, fresh_id: Seq<char>)
    requires
        is_blank(strip_trailing_newlines(editor)),
    ensures
        ({
            let (r, out) = step(s, MessageView::CloseWindow, editor, now, fresh_id);
            r == s && out.save is None && out.delete.len() == 0 && out.task == crate::state::Task::CloseWindow
        }),
{
}

/// Loading a note when no work would be lost (the open note's text equals
/// the editor's, or no note is open and the editor is blank) opens the first
/// note with that identifier and puts its text into the editor; when there
/// is no such note, no note is opened and the editor is kept.
pub proof fn lemma_load_opens_when_nothing_lost(
    s: AppView,
    id: Seq<char>,
    editor: Seq<char>,
    now: i64,
    fresh_id: Seq<char>,
    i: int,
)
    requires
        s.editing_id is Some ==> is_first_with_id(s.notes, s.editing_id->0, i) && s.notes[i].content
            == strip_trailing_newlines(editor),
        s.editing_id is None ==> is_blank(strip_trailing_newlines(editor)),
    ensures
        ({
            let (r, out) = step(s, MessageView::LoadNote(id), editor, now, fresh_id);
            &&& r.notes == s.notes
            &&& r.confirm == ConfirmView::Idle
            &&& out.save is None
            &&& out.delete.len() == 0
            &&& forall|j: int| #[trigger] is_first_with_id(s.notes, id, j) ==> r.editing_id == Some(id)
                && out.editor == EditorView::Load(s.notes[j].content)
            &&& (forall|j: int| 0 <= j < s.notes.len() ==> #[trigger] s.notes[j].id != id) ==> r.editing_id
                == s.editing_id && out.editor == EditorView::Keep
        }),
{
    if s.editing_id is Some {
        lemma_first_is_found(s.notes, s.editing_id->0, i);
    }
    assert forall|j: int| #[trigger] is_first_with_id(s.notes, id, j) implies step(
        s,
        MessageView::LoadNote(id),
        editor,
        now,
        fresh_id,
    ).0.editing_id == Some(id) by {
        lemma_first_is_found(s.notes, id, j);
    }
    assert forall|j: int| #[trigger] is_first_with_id(s.notes, id, j) implies step(
        s,
        MessageView::LoadNote(id),
        editor,
        now,
        fresh_id,
    ).1.editor == EditorView::Load(s.notes[j].content) by {
        lemma_first_is_found(s.notes, id, j);
    }
    if forall|j: int| 0 <= j < s.notes.len() ==> #[trigger] s.notes[j].id != id {
        assert(!exists|j: int| is_first_with_id(s.notes, id, j));
    }
}

/// Confirming a load opens the first note with that identifier and puts its
/// text into the editor, whatever the editor held; nothing is written.
pub proof fn lemma_confirm_load_opens(
    s: AppView,
    id: Seq<char>,
    editor: Seq<char>,
    now: i64,
    fresh_id: Seq<char>,
    j: int,
)
    requires
        is_first_with_id(s.notes, id, j),
    ensures
        ({
            let (r, out) = step(s, MessageView::ConfirmLoad(id), editor, now, fresh_id);
            &&& r.editing_id == Some(id)
            &&& r.notes == s.notes
            &&& r.confirm == ConfirmView::Idle
            &&& out.editor == EditorView::Load(s.notes[j].content)
            &&& out.save is None
        }),
{
    lemma_first_is_found(s.notes, id, j);
}

/// Clearing when no edit would be lost (no note open, the open note's text
/// equals the editor's, or the editor is blank) empties the editor, closes
/// the note and ends any confirmation, writing nothing.
pub proof fn lemma_clear_when_nothing_lost(
    s: AppView,
    editor: Seq<char>,
    now: i64,
    fresh_id: Seq<char>,
    i: int,
)
    requires
        s.editing_id is None || is_blank(strip_trailing_newlines(editor)) || (is_first_with_id(
            s.notes,
            s.editing_id->0,
            i,
        ) && s.notes[i].content == strip_trailing_newlines(editor)),
    ensures
        ({
            let (r, out) = step(s, MessageView::Clear, editor, now, fresh_id);
            &&& r.notes == s.notes
            &&& r.editing_id is None
            &&& r.confirm == ConfirmView::Idle
            &&& out.editor == EditorView::Clear
            &&& out.save is None
            &&& out.delete.len() == 0
        }),
{
    if s.editing_id is Some && !is_blank(strip_trailing_newlines(editor)) {
        lemma_first_is_found(s.notes, s.editing_id->0, i);
    }
}

/// Deleting the open note closes it and empties the editor; deleting another
/// note keeps the open note and the editor.
pub proof fn lemma_delete_closes_only_its_note(
    s: AppView,
    id: Seq<char>,
    editor: Seq<char>,
    now: i64,
    fresh_id: Seq<char>,
)
    ensures
        ({
            let (r, out) = step(s, MessageView::ConfirmDeleteNote(id), editor, now, fresh_id);
            &&& s.editing_id == Some(id) ==> r.editing_id is None && out.editor == EditorView::Clear
            &&& s.editing_id != Some(id) ==> r.editing_id == s.editing_id && out.editor == EditorView::Keep
            &&& out.save is None
        }),
{
}

/// Cancelling a load or a confirmation only ends the confirmation.
pub proof fn lemma_cancel_only_ends_confirmation(
    s: AppView,
    m: MessageView,
    editor: Seq<char>,
    now: i64,
    fresh_id: Seq<char>,
)
    requires
        m is CancelLoad || m is CancelConfirm,
    ensures
        ({
            let (r, out) = step(s, m, editor, now, fresh_id);
            &&& r == AppView { confirm: ConfirmView::Idle, ..s }
            &&& out.editor == EditorView::Keep
            &&& out.save is None
            &&& out.delete.len() == 0
        }),
{
}

// ---------------------------------------------------------------------------
// What the window shows, stated over the state.

/// The window's header, counters, dialog and notices, read off the state.
pub proof fn lemma_view_facts(s: AppView, editor: Seq<char>)
    ensures
        ({
            let vm = view_of(s, editor);
            let content = strip_trailing_newlines(editor);
            &&& vm.editing == (s.editing_id is Some)
            &&& vm.is_filtering == (s.search_query.len() != 0)
            &&& vm.note_count == s.notes.len()
            &&& vm.editor_chars == content.len()
            &&& vm.confirming_delete_all == (s.confirm == ConfirmView::DeleteAll)
            &&& (vm.empty_notice is None) == (vm.rows.len() != 0)
            &&& vm.rows.len() == 0 && s.search_query.len() != 0 ==> vm.empty_notice == Some(EmptyNotice::NoMatches)
            &&& vm.rows.len() == 0 && s.search_query.len() == 0 ==> vm.empty_notice == Some(EmptyNotice::NoNotes)
            &&& s.editing_id is None ==> vm.header == Header::NewNote
            &&& forall|c: Seq<char>| s.confirm == ConfirmView::UnsavedWorkBeforeLoad(c) ==> vm.dialog == DialogView::UnsavedBeforeLoad(c)
            &&& s.confirm == ConfirmView::UnsavedWorkBeforeClear ==> vm.dialog == DialogView::UnsavedBeforeClear
            &&& (s.confirm is Idle || s.confirm is DeleteAll || s.confirm is DeleteOne) ==> vm.dialog == DialogView::Hidden
        }),
{
}

/// The header of a listed open note says whether the editor's text differs
/// from the note's; an open note that is not listed shows as a new note.
pub proof fn lemma_header_of_open_note(s: AppView, editor: Seq<char>, i: int)
    requires
        s.editing_id is Some,
    ensures
        is_first_with_id(s.notes, s.editing_id->0, i) ==> view_of(s, editor).header == if s.notes[i].content
            == strip_trailing_newlines(editor) {
            Header::Editing
        } else {
            Header::EditingUnsaved
        },
        (forall|k: int| 0 <= k < s.notes.len() ==> #[trigger] s.notes[k].id != s.editing_id->0) ==> view_of(
            s,
            editor,
        ).header == Header::NewNote,
{
    if is_first_with_id(s.notes, s.editing_id->0, i) {
        lemma_first_is_found(s.notes, s.editing_id->0, i);
    }
    if forall|k: int| 0 <= k < s.notes.len() ==> #[trigger] s.notes[k].id != s.editing_id->0 {
        assert(!exists|k: int| is_first_with_id(s.notes, s.editing_id->0, k));
    }
}

/// Row `j` shows note `k`: its identifier, the preview of its text, its
/// date (or nothing when the timestamp has no date), whether it is the open
/// note and whether its deletion waits for confirmation.
pub open spec fn row_shows(s: AppView, j: int, k: int) -> bool {
    rows_of(s)[j] == (crate::view::RowView {
        id: s.notes[k].id,
        preview: truncated(replace_newlines(s.notes[k].content), PREVIEW_CHARS as nat),
        date: match crate::outside::utc_date_text(s.notes[k].timestamp) {
            Some(d) => d,
            None => Seq::empty(),
        },
        is_editing: s.editing_id == Some(s.notes[k].id),
        confirming_delete: s.confirm == ConfirmView::DeleteOne(s.notes[k].id),
    })
}

/// Row `j` shows some listed note.
pub open spec fn row_shows_a_note(s: AppView, j: int) -> bool {
    exists|k: int| 0 <= k < s.notes.len() && #[trigger] row_shows(s, j, k)
}

/// Each row shows a listed note (see `row_shows`).
pub proof fn lemma_rows_show_notes(s: AppView)
    ensures
        forall|j: int| 0 <= j < rows_of(s).len() ==> #[trigger] row_shows_a_note(s, j),
{
    let p = matching(s.search_query);
    let f = s.notes.filter(p);
    assert forall|j: int| 0 <= j < rows_of(s).len() implies #[trigger] row_shows_a_note(s, j) by {
        assert(f.contains(f[j]));
        s.notes.lemma_filter_contains_rev(p, f[j]);
        let k = choose|k: int| 0 <= k < s.notes.len() && s.notes[k] == f[j];
        assert(rows_of(s)[j] == crate::view::row_of(
            f[j],
            crate::outside::utc_date_text(f[j].timestamp),
            s.editing_id,
            s.confirm,
        ));
        assert(row_shows(s, j, k));
    }
}

// ---------------------------------------------------------------------------
// More on texts.

/// The editor's text removes only newlines from the end of the raw text.
pub proof fn lemma_editor_text_drops_only_newlines(raw: Seq<char>)
    ensures
        forall|k: int|
            strip_trailing_newlines(raw).len() <= k < raw.len() ==> #[trigger] raw[k] == '\n',
{
    lemma_trail_len_bound(raw, newline_pred());
}

/// `trimmed(s)` stands at position `a` of `s`, with only whitespace
/// before and after it.
pub open spec fn inner_run_at(s: Seq<char>, a: int) -> bool {
    &&& 0 <= a
    &&& a + trimmed(s).len() <= s.len()
    &&& s.subrange(a, a + trimmed(s).len()) == trimmed(s)
    &&& forall|k: int| 0 <= k < a ==> is_ws(#[trigger] s[k])
    &&& forall|k: int| a + trimmed(s).len() <= k < s.len() ==> is_ws(#[trigger] s[k])
}

/// A trimmed text is a run of the text with only whitespace before and
/// after it.
pub proof fn lemma_trimmed_is_inner_run(s: Seq<char>)
    ensures
        exists|a: int| #[trigger] inner_run_at(s, a),
{
    lemma_lead_len_bound(s, ws_pred());
    lemma_trail_len_bound(s, ws_pred());
    if is_blank(s) {
        assert(s.subrange(0, 0) =~= trimmed(s));
        assert(inner_run_at(s, 0));
    } else {
        let a = lead_len(s, ws_pred()) as int;
        let w = choose|i: int| 0 <= i < s.len() && !is_ws(s[i]);
        assert(a <= w);
        assert(w < s.len() - trail_len(s, ws_pred()));
        assert(s.subrange(a, a + trimmed(s).len()) == trimmed(s));
        assert(inner_run_at(s, a));
    }
}

/// A cut text ends just before the last space among the first `max`
/// characters, or at `max` when there is no space there.
pub proof fn lemma_truncated_at_last_space(s: Seq<char>, max: nat)
    requires
        s.len() > max,
    ensures
        (forall|k: int| 0 <= k < max ==> #[trigger] s[k] != ' ') ==> truncated(s, max) == s.take(
            max as int,
        ) + ellipsis(),
        forall|k: int|
            0 <= k < max && #[trigger] s[k] == ' ' && (forall|m: int| k < m < max ==> s[m] != ' ')
                ==> truncated(s, max) == s.take(k) + ellipsis(),
{
    let cut = s.take(max as int);
    lemma_trail_len_bound(cut, non_space_pred());
    let tail = trail_len(cut, non_space_pred());
    if forall|k: int| 0 <= k < max ==> #[trigger] s[k] != ' ' {
        if tail < cut.len() {
            assert(cut[cut.len() - tail - 1] == s[cut.len() - tail - 1]);
        }
    }
    assert forall|k: int|
        0 <= k < max && #[trigger] s[k] == ' ' && (forall|m: int| k < m < max ==> s[m] != ' ')
            implies truncated(s, max) == s.take(k) + ellipsis() by {
        crate::text::lemma_trail_len(cut, non_space_pred(), k + 1);
        assert(cut.take(k) =~= s.take(k));
    }
}

/// Previews show no newline; a text without newlines is shown unchanged;
/// newlines are replaced piece by piece.
pub proof fn lemma_replace_newlines_shape(a: Seq<char>, b: Seq<char>)
    ensures
        forall|k: int| 0 <= k < replace_newlines(a).len() ==> #[trigger] replace_newlines(a)[k] != '\n',
        (forall|k: int| 0 <= k < a.len() ==> #[trigger] a[k] != '\n') ==> replace_newlines(a) == a,
        replace_newlines(a + b) == replace_newlines(a) + replace_newlines(b),
    decreases a.len() + b.len(),
{
    lemma_replace_no_newline(a);
    if forall|k: int| 0 <= k < a.len() ==> #[trigger] a[k] != '\n' {
        lemma_replace_plain_run(a, 0, a.len() as int);
        assert(a.take(0) =~= Seq::<char>::empty());
        assert(a.take(a.len() as int) =~= a);
        assert(a.subrange(0, a.len() as int) =~= a);
    }
    lemma_replace_concat(a, b);
}

proof fn lemma_replace_no_newline(a: Seq<char>)
    ensures
        forall|k: int| 0 <= k < replace_newlines(a).len() ==> #[trigger] replace_newlines(a)[k] != '\n',
    decreases a.len(),
{
    if a.len() > 0 {
        lemma_replace_no_newline(a.drop_last());
        let p = replace_newlines(a.drop_last());
        let t = if a.last() == '\n' { newline_marker() } else { seq![a.last()] };
        assert forall|k: int| 0 <= k < replace_newlines(a).len() implies #[trigger] replace_newlines(a)[k] != '\n' by {
            if k < p.len() {
                assert(replace_newlines(a)[k] == p[k]);
            } else {
                assert(replace_newlines(a)[k] == t[k - p.len()]);
            }
        }
    }
}

proof fn lemma_replace_concat(a: Seq<char>, b: Seq<char>)
    ensures
        replace_newlines(a + b) == replace_newlines(a) + replace_newlines(b),
    decreases b.len(),
{
    if b.len() == 0 {
        assert(a + b =~= a);
        assert(replace_newlines(a) + replace_newlines(b) =~= replace_newlines(a));
    } else {
        lemma_replace_concat(a, b.drop_last());
        assert((a + b).drop_last() =~= a + b.drop_last());
        assert((a + b).last() == b.last());
        let t = if b.last() == '\n' { newline_marker() } else { seq![b.last()] };
        assert(replace_newlines(a) + replace_newlines(b.drop_last()) + t =~= replace_newlines(a) + (
        replace_newlines(b.drop_last()) + t));
    }
}

// ---------------------------------------------------------------------------
// Pairs of actions.

/// Asking to delete (one note or all) and then cancelling leaves the state
/// as it was, and nothing is written or removed on the way.
pub proof fn lemma_cancel_undoes_delete_request(
    s: AppView,
    m: MessageView,
    editor: Seq<char>,
    now: i64,
    fresh_id: Seq<char>,
)
    requires
        s.confirm == ConfirmView::Idle,
        m is DeleteNote || m is DeleteAllNotes,
    ensures
        ({
            let (s1, o1) = step(s, m, editor, now, fresh_id);
            let (s2, o2) = step(s1, MessageView::CancelConfirm, editor, now, fresh_id);
            s2 == s && o1 == quiet() && o2 == quiet()
        }),
{
}

/// Opening a note and saving it without touching it changes no note and
/// writes nothing; the editor is cleared and no note stays open.
pub proof fn lemma_open_then_save_keeps_notes(
    s: AppView,
    id: Seq<char>,
    editor: Seq<char>,
    now: i64,
    fresh_id: Seq<char>,
)
    requires
        find_note(s.notes, id) is Some,
        !has_unsaved_work(s, strip_trailing_newlines(editor)),
        all_non_blank(s.notes),
        strip_trailing_newlines(s.notes[find_note(s.notes, id)->0].content) == s.notes[find_note(
            s.notes,
            id,
        )->0].content,
    ensures
        ({
            let i = find_note(s.notes, id)->0;
            let (s1, o1) = step(s, MessageView::LoadNote(id), editor, now, fresh_id);
            let (s2, o2) = step(s1, MessageView::Save, s.notes[i].content, now, fresh_id);
            &&& o1.editor == EditorView::Load(s.notes[i].content)
            &&& s2.notes == s.notes
            &&& s2.editing_id is None
            &&& o2.save is None
        }),
{
    let i = find_note(s.notes, id)->0;
    lemma_found_note(s.notes, id);
    let s1 = step(s, MessageView::LoadNote(id), editor, now, fresh_id).0;
    assert(s1.notes == s.notes);
    assert(s1.editing_id == Some(s.notes[i].id));
    assert(s.notes[i].id == id);
    assert(find_note(s1.notes, id) == Some(i));
}

// ---------------------------------------------------------------------------
// Texts.

/// A preview never exceeds `max` characters plus the three dots; a text
/// that fits is kept whole, a longer one becomes one of its prefixes
/// followed by "...".
pub proof fn lemma_truncated_shape(s: Seq<char>, max: nat)
    ensures
        truncated(s, max).len() <= max + 3,
        s.len() <= max ==> truncated(s, max) == s,
        s.len() > max ==> exists|k: int|
            0 <= k <= max && #[trigger] s.take(k) + ellipsis() == truncated(s, max),
{
    if s.len() > max {
        let cut = s.take(max as int);
        lemma_trail_len_bound(cut, non_space_pred());
        let tail = trail_len(cut, non_space_pred());
        if tail == cut.len() {
            assert(s.take(max as int) + ellipsis() == truncated(s, max));
        } else {
            let k = cut.len() - tail - 1;
            assert(cut.take(k) =~= s.take(k));
            assert(s.take(k) + ellipsis() == truncated(s, max));
        }
    }
}

/// The editor's text is a prefix of the raw text that does not end with a
/// newline, and taking it twice changes nothing.
pub proof fn lemma_editor_text_shape(raw: Seq<char>)
    ensures
        strip_trailing_newlines(raw).is_prefix_of(raw),
        strip_trailing_newlines(raw).len() == 0 || strip_trailing_newlines(raw).last() != '\n',
        strip_trailing_newlines(strip_trailing_newlines(raw)) == strip_trailing_newlines(raw),
{
    lemma_trail_len_bound(raw, newline_pred());
    let t = strip_trailing_newlines(raw);
    lemma_trail_len_bound(t, newline_pred());
    if t.len() > 0 {
        assert(t.last() == raw[t.len() - 1]);
    }
    if trail_len(t, newline_pred()) > 0 {
        assert(t[t.len() - 1] == '\n');
    }
    assert(t.subrange(0, t.len() as int) =~= t);
}

/// A trimmed text is empty exactly when the text is blank, and otherwise
/// begins and ends with a character that is not whitespace.
pub proof fn lemma_trimmed_shape(s: Seq<char>)
    ensures
        trimmed(s).len() == 0 <==> is_blank(s),
        trimmed(s).len() > 0 ==> !is_ws(trimmed(s)[0]) && !is_ws(trimmed(s).last()),
{
    lemma_lead_len_bound(s, ws_pred());
    lemma_trail_len_bound(s, ws_pred());
    if !is_blank(s) {
        let a = lead_len(s, ws_pred()) as int;
        let b = s.len() - trail_len(s, ws_pred());
        let w = choose|i: int| 0 <= i < s.len() && !is_ws(s[i]);
        assert(a <= w);
        assert(w < b);
        assert(trimmed(s)[0] == s[a]);
        assert(trimmed(s).last() == s[b - 1]);
    }
}

/// With an empty search every note is listed, in order.
pub proof fn lemma_empty_search_lists_every_note(s: AppView)
    requires
        s.search_query.len() == 0,
    ensures
        rows_of(s).len() == s.notes.len(),
        forall|k: int| 0 <= k < s.notes.len() ==> #[trigger] rows_of(s)[k].id == s.notes[k].id,
{
    let p = matching(s.search_query);
    assert(s.notes.all(p));
    lemma_filter_all(s.notes, p);
}

proof fn lemma_filter_all(s: Seq<NoteView>, p: spec_fn(NoteView) -> bool)
    requires
        s.all(p),
    ensures
        s.filter(p) == s,
    decreases s.len(),
{
    reveal(Seq::filter);
    if s.len() > 0 {
        assert(s.drop_last().all(p)) by {
            assert forall|k: int| 0 <= k < s.drop_last().len() implies #[trigger] p(
                s.drop_last()[k],
            ) by {
                assert(s.drop_last()[k] == s[k]);
            }
        }
        lemma_filter_all(s.drop_last(), p);
        assert(p(s[s.len() - 1]));
        assert(s.drop_last().push(s.last()) =~= s);
    }
}

} // verus!
