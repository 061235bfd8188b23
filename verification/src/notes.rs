//! Notes as they live in memory and on disk, and the list of notes kept
//! newest first.
use vstd::prelude::*;
use vstd::string::*;
use crate::outside::{is_v4_uuid_text, new_note_id, now_millis};
use crate::text::{is_blank, is_blank_text, same_text};

verus! {

/// What a note is: its identifier, its text and the time it was last
/// written, in milliseconds since the Unix epoch.
pub struct NoteView {
    pub id: Seq<char>,
    pub content: Seq<char>,
    pub timestamp: i64,
}

/// A note kept in memory.
pub struct Note {
    pub id: String,
    pub content: String,
    pub timestamp: i64,
}

/// A note as it is written to its file.
pub struct NoteFile {
    pub id: String,
    pub content: String,
    pub timestamp: i64,
}

impl View for Note {
    type V = NoteView;

    open spec fn view(&self) -> NoteView {
        NoteView { id: self.id@, content: self.content@, timestamp: self.timestamp }
    }
}

impl View for NoteFile {
    type V = NoteView;

    open spec fn view(&self) -> NoteView {
        NoteView { id: self.id@, content: self.content@, timestamp: self.timestamp }
    }
}

impl Clone for Note {
    fn clone(&self) -> (r: Self)
        ensures
            r@ == self@,
    {
        Note { id: self.id.clone(), content: self.content.clone(), timestamp: self.timestamp }
    }
}

impl Clone for NoteFile {
    fn clone(&self) -> (r: Self)
        ensures
            r@ == self@,
    {
        NoteFile { id: self.id.clone(), content: self.content.clone(), timestamp: self.timestamp }
    }
}

impl From<NoteFile> for Note {
    fn from(f: NoteFile) -> (r: Note) {
        Note { id: f.id, content: f.content, timestamp: f.timestamp }
    }
}

impl vstd::std_specs::convert::FromSpecImpl<NoteFile> for Note {
    open spec fn obeys_from_spec() -> bool {
        true
    }

    open spec fn from_spec(f: NoteFile) -> Note {
        Note { id: f.id, content: f.content, timestamp: f.timestamp }
    }
}

/// The views of a list of notes.
pub open spec fn notes_view(notes: Seq<Note>) -> Seq<NoteView> {
    notes.map_values(|n: Note| n@)
}

pub open spec fn files_view(files: Seq<NoteFile>) -> Seq<NoteView> {
    files.map_values(|f: NoteFile| f@)
}

impl NoteFile {
    /// A note file for `content` with a fresh identifier, stamped with the
    /// current time.
    pub fn new(content: String) -> (r: NoteFile)
        ensures
            r.content@ == content@,
            is_v4_uuid_text(r.id@),
    {
        NoteFile { id: new_note_id(), content, timestamp: now_millis() }
    }

    /// The note that this file holds.
    pub fn to_note(&self) -> (r: Note)
        ensures
            r@ == self@,
    {
        Note { id: self.id.clone(), content: self.content.clone(), timestamp: self.timestamp }
    }
}

impl Note {
    /// The file that holds this note.
    pub fn to_file(&self) -> (r: NoteFile)
        ensures
            r@ == self@,
    {
        NoteFile { id: self.id.clone(), content: self.content.clone(), timestamp: self.timestamp }
    }
}

pub open spec fn json_suffix() -> Seq<char> {
    seq!['.', 'j', 's', 'o', 'n']
}

pub open spec fn txt_suffix() -> Seq<char> {
    seq!['.', 't', 'x', 't']
}

/// Name of the file that stores the note `id`: `"<id>.json"`.
pub fn json_file_name(id: &str) -> (r: String)
    ensures
        r@ == id@ + json_suffix(),
{
    let mut r = String::from_str(id);
    r.append(".json");
    proof {
        reveal_strlit(".json");
    }
    r
}

/// Name of the plain-text file that older versions stored the note `id`
/// in: `"<id>.txt"`.
pub fn txt_file_name(id: &str) -> (r: String)
    ensures
        r@ == id@ + txt_suffix(),
{
    let mut r = String::from_str(id);
    r.append(".txt");
    proof {
        reveal_strlit(".txt");
    }
    r
}

/// What a file of the notes directory holds, judged by its extension.
#[derive(Clone, Copy, Debug, PartialEq, Eq, Structural)]
pub enum FileKind {
    /// A note file (`.json`).
    Note,
    /// A plain-text note of an older version (`.txt`), to be migrated.
    LegacyText,
    /// Anything else, which is ignored.
    Other,
}

pub open spec fn kind_of_extension(extension: Option<Seq<char>>) -> FileKind {
    match extension {
        Some(e) => if e == seq!['j', 's', 'o', 'n'] {
            FileKind::Note
        } else if e == seq!['t', 'x', 't'] {
            FileKind::LegacyText
        } else {
            FileKind::Other
        },
        None => FileKind::Other,
    }
}

/// The kind of a file of the notes directory, given its extension (if it
/// has one that is valid text).
pub fn file_kind(extension: Option<&str>) -> (k: FileKind)
    ensures
        k == kind_of_extension(match extension {
            Some(e) => Some(e@),
            None => None,
        }),
{
    proof {
        reveal_strlit("json");
        reveal_strlit("txt");
        assert("json"@ =~= seq!['j', 's', 'o', 'n']);
        assert("txt"@ =~= seq!['t', 'x', 't']);
    }
    match extension {
        Some(e) => if same_text(e, "json") {
            FileKind::Note
        } else if same_text(e, "txt") {
            FileKind::LegacyText
        } else {
            FileKind::Other
        },
        None => FileKind::Other,
    }
}

/// A plain-text note of an older version becomes a note file with a fresh
/// identifier and the current time; a blank text is dropped.
pub fn migrate_legacy(content: String) -> (r: Option<NoteFile>)
    ensures
        r is None <==> is_blank(content@),
        r matches Some(f) ==> f.content@ == content@ && is_v4_uuid_text(f.id@),
{
    if is_blank_text(content.as_str()) {
        None
    } else {
        Some(NoteFile::new(content))
    }
}

// ---------------------------------------------------------------------------
// Newest first.

/// `x` placed into `sorted` after every note at least as new as it.
pub open spec fn insert_by_time(sorted: Seq<NoteView>, x: NoteView) -> Seq<NoteView>
    decreases sorted.len(),
{
    if sorted.len() == 0 {
        seq![x]
    } else if sorted[0].timestamp >= x.timestamp {
        seq![sorted[0]] + insert_by_time(sorted.drop_first(), x)
    } else {
        seq![x] + sorted
    }
}

/// The notes ordered newest first; notes with equal timestamps keep their
/// order (a stable sort by descending timestamp).
pub open spec fn newest_first(s: Seq<NoteView>) -> Seq<NoteView>
    decreases s.len(),
{
    if s.len() == 0 {
        Seq::empty()
    } else {
        insert_by_time(newest_first(s.drop_last()), s.last())
    }
}

pub open spec fn is_newest_first(s: Seq<NoteView>) -> bool {
    forall|i: int, j: int| 0 <= i < j < s.len() ==> s[i].timestamp >= s[j].timestamp
}

pub open spec fn stamped(t: i64) -> spec_fn(NoteView) -> bool {
    |n: NoteView| n.timestamp == t
}

/// Inserting before the first note that is older than `x`.
pub proof fn lemma_insert_by_time_at(sorted: Seq<NoteView>, x: NoteView, p: int)
    requires
        0 <= p <= sorted.len(),
        forall|k: int| 0 <= k < p ==> #[trigger] sorted[k].timestamp >= x.timestamp,
        p == sorted.len() || sorted[p].timestamp < x.timestamp,
    ensures
        insert_by_time(sorted, x) == sorted.insert(p, x),
    decreases sorted.len(),
{
    if sorted.len() == 0 {
        assert(sorted.insert(p, x) =~= seq![x]);
    } else if sorted[0].timestamp >= x.timestamp {
        assert(p > 0);
        let t = sorted.drop_first();
        assert forall|k: int| 0 <= k < p - 1 implies #[trigger] t[k].timestamp >= x.timestamp by {
            assert(t[k] == sorted[k + 1]);
        }
        if p - 1 < t.len() {
            assert(t[p - 1] == sorted[p]);
        }
        lemma_insert_by_time_at(t, x, p - 1);
        assert(seq![sorted[0]] + t.insert(p - 1, x) =~= sorted.insert(p, x));
    } else {
        if p > 0 {
            assert(sorted[0].timestamp >= x.timestamp);
        }
        assert(sorted.insert(p, x) =~= seq![x] + sorted);
    }
}

/// Where `insert_by_time` places `x`: after the notes at least as new.
pub open spec fn insert_pos(sorted: Seq<NoteView>, x: NoteView) -> nat
    decreases sorted.len(),
{
    if sorted.len() > 0 && sorted[0].timestamp >= x.timestamp {
        1 + insert_pos(sorted.drop_first(), x)
    } else {
        0
    }
}

proof fn lemma_insert_pos(sorted: Seq<NoteView>, x: NoteView)
    ensures
        insert_pos(sorted, x) <= sorted.len(),
        forall|k: int| 0 <= k < insert_pos(sorted, x) ==> #[trigger] sorted[k].timestamp >= x.timestamp,
        insert_pos(sorted, x) == sorted.len() || sorted[insert_pos(sorted, x) as int].timestamp < x.timestamp,
        insert_by_time(sorted, x) == sorted.insert(insert_pos(sorted, x) as int, x),
    decreases sorted.len(),
{
    let p = insert_pos(sorted, x);
    if sorted.len() > 0 && sorted[0].timestamp >= x.timestamp {
        let t = sorted.drop_first();
        lemma_insert_pos(t, x);
        assert forall|k: int| 0 <= k < p implies #[trigger] sorted[k].timestamp >= x.timestamp by {
            if k > 0 {
                assert(sorted[k] == t[k - 1]);
            }
        }
        if p < sorted.len() {
            assert(sorted[p as int] == t[p - 1]);
        }
        assert(seq![sorted[0]] + t.insert(p - 1, x) =~= sorted.insert(p as int, x));
    } else {
        if sorted.len() == 0 {
            assert(sorted.insert(0, x) =~= seq![x]);
        } else {
            assert(sorted.insert(0, x) =~= seq![x] + sorted);
        }
    }
}

proof fn lemma_insert_keeps_order(sorted: Seq<NoteView>, x: NoteView)
    requires
        is_newest_first(sorted),
    ensures
        is_newest_first(insert_by_time(sorted, x)),
{
    lemma_insert_pos(sorted, x);
    let p = insert_pos(sorted, x) as int;
    let r = sorted.insert(p, x);
    assert forall|k: int| p <= k < sorted.len() implies #[trigger] sorted[k].timestamp < x.timestamp by {
        assert(sorted[p].timestamp >= sorted[k].timestamp);
    }
    assert forall|i: int, j: int| 0 <= i < j < r.len() implies r[i].timestamp >= r[j].timestamp by {
        if i < p {
            if j < p {
                assert(r[j] == sorted[j]);
            } else if j > p {
                assert(r[j] == sorted[j - 1]);
            }
        } else if i == p {
            assert(r[j] == sorted[j - 1]);
        } else {
            assert(r[i] == sorted[i - 1]);
            assert(r[j] == sorted[j - 1]);
        }
    }
}

proof fn lemma_insert_multiset(sorted: Seq<NoteView>, x: NoteView)
    ensures
        insert_by_time(sorted, x).to_multiset() == sorted.to_multiset().insert(x),
{
    broadcast use vstd::seq_lib::group_to_multiset_ensures;

    lemma_insert_pos(sorted, x);
    let p = insert_pos(sorted, x) as int;
    let r = sorted.insert(p, x);
    assert(r.remove(p) =~= sorted);
    assert(r[p] == x);
    assert(r.to_multiset().remove(x) == sorted.to_multiset());
    assert(r.contains(x));
    assert(r.to_multiset().count(x) > 0);
    assert(r.to_multiset() =~= sorted.to_multiset().insert(x));
}

proof fn lemma_insert_filter(sorted: Seq<NoteView>, x: NoteView, t: i64)
    requires
        is_newest_first(sorted),
    ensures
        insert_by_time(sorted, x).filter(stamped(t)) == if x.timestamp == t {
            sorted.filter(stamped(t)).push(x)
        } else {
            sorted.filter(stamped(t))
        },
{
    broadcast use vstd::seq::Seq::filter_distributes_over_add;

    lemma_insert_pos(sorted, x);
    let p = insert_pos(sorted, x) as int;
    let pre = sorted.take(p);
    let post = sorted.skip(p);
    assert(sorted =~= pre + post);
    assert(sorted.insert(p, x) =~= pre + seq![x] + post);
    reveal(Seq::filter);
    assert(seq![x].drop_last() =~= Seq::<NoteView>::empty());
    if x.timestamp == t {
        assert forall|k: int| 0 <= k < post.len() implies !(stamped(t))(#[trigger] post[k]) by {
            assert(post[k] == sorted[p + k]);
            assert(sorted[p].timestamp >= sorted[p + k].timestamp);
        }
        assert(post.all(|n: NoteView| !(stamped(t))(n)));
        post.lemma_all_neg_filter_empty(stamped(t));
        assert(post.filter(stamped(t)) =~= Seq::<NoteView>::empty());
        assert(seq![x].filter(stamped(t)) =~= seq![x]);
        assert((pre + seq![x] + post).filter(stamped(t)) == (pre + seq![x]).filter(stamped(t))
            + post.filter(stamped(t)));
        assert((pre + seq![x]).filter(stamped(t)) == pre.filter(stamped(t)) + seq![x].filter(
            stamped(t),
        ));
        assert(sorted.filter(stamped(t)) == pre.filter(stamped(t)) + post.filter(stamped(t)));
        assert(insert_by_time(sorted, x).filter(stamped(t)) =~= sorted.filter(stamped(t)).push(x));
    } else {
        assert(!(stamped(t))(x));
        assert(seq![x].drop_last().filter(stamped(t)) =~= Seq::<NoteView>::empty());
        assert(seq![x].last() == x);
        assert(seq![x].filter(stamped(t)) =~= Seq::<NoteView>::empty());
        assert((pre + seq![x] + post).filter(stamped(t)) == (pre + seq![x]).filter(stamped(t))
            + post.filter(stamped(t)));
        assert((pre + seq![x]).filter(stamped(t)) == pre.filter(stamped(t)) + seq![x].filter(
            stamped(t),
        ));
        assert(sorted.filter(stamped(t)) == pre.filter(stamped(t)) + post.filter(stamped(t)));
        assert(insert_by_time(sorted, x).filter(stamped(t)) =~= sorted.filter(stamped(t)));
    }
}

/// Sorting puts the notes in newest-first order.
pub proof fn lemma_newest_first_is_ordered(s: Seq<NoteView>)
    ensures
        is_newest_first(newest_first(s)),
    decreases s.len(),
{
    if s.len() > 0 {
        lemma_newest_first_is_ordered(s.drop_last());
        lemma_insert_keeps_order(newest_first(s.drop_last()), s.last());
    }
}

/// Sorting neither adds nor loses a note: the result is a permutation.
pub proof fn lemma_newest_first_permutes(s: Seq<NoteView>)
    ensures
        newest_first(s).to_multiset() == s.to_multiset(),
    decreases s.len(),
{
    broadcast use vstd::seq_lib::group_to_multiset_ensures;

    if s.len() > 0 {
        lemma_newest_first_permutes(s.drop_last());
        lemma_insert_multiset(newest_first(s.drop_last()), s.last());
        assert(s.drop_last().push(s.last()) =~= s);
    } else {
        assert(newest_first(s) =~= s);
    }
}

/// Sorting is stable: the notes with any one timestamp keep their order.
pub proof fn lemma_newest_first_is_stable(s: Seq<NoteView>, t: i64)
    ensures
        newest_first(s).filter(stamped(t)) == s.filter(stamped(t)),
    decreases s.len(),
{
    if s.len() > 0 {
        let rest = s.drop_last();
        lemma_newest_first_is_stable(rest, t);
        lemma_newest_first_is_ordered(rest);
        lemma_insert_filter(newest_first(rest), s.last(), t);
        rest.lemma_filter_push(s.last(), stamped(t));
        assert(rest.push(s.last()) =~= s);
    } else {
        assert(newest_first(s) =~= s);
    }
}

/// Sorts the notes newest first, keeping the order of notes with equal
/// timestamps.
pub fn sort_newest_first(notes: &mut Vec<Note>)
    ensures
        notes_view(final(notes)@) == newest_first(notes_view(old(notes)@)),
{
    let ghost input = notes_view(notes@);
    let mut sorted: Vec<Note> = Vec::new();
    let n = notes.len();
    let mut i: usize = 0;
    proof {
        assert(input.take(0) =~= Seq::<NoteView>::empty());
        assert(notes_view(sorted@) =~= Seq::<NoteView>::empty());
    }
    while i < n
        invariant
            n == notes.len(),
            input == notes_view(notes@),
            i <= n,
            notes_view(sorted@) == newest_first(input.take(i as int)),
            sorted.len() == i,
        decreases n - i,
    {
        let x = notes[i].clone();
        let mut p: usize = 0;
        while p < sorted.len() && sorted[p].timestamp >= x.timestamp
            invariant
                p <= sorted.len(),
                forall|k: int| 0 <= k < p ==> #[trigger] sorted@[k].timestamp >= x.timestamp,
            decreases sorted.len() - p,
        {
            p = p + 1;
        }
        let ghost before = notes_view(sorted@);
        proof {
            assert forall|k: int| 0 <= k < p implies #[trigger] before[k].timestamp
                >= x@.timestamp by {
                assert(before[k] == sorted@[k]@);
            }
            if p < sorted.len() {
                assert(before[p as int] == sorted@[p as int]@);
            }
            lemma_insert_by_time_at(before, x@, p as int);
        }
        sorted.insert(p, x);
        proof {
            assert(notes_view(sorted@) =~= before.insert(p as int, x@));
            let pre = input.take(i as int + 1);
            assert(pre.drop_last() =~= input.take(i as int));
            assert(pre.last() == x@);
        }
        i = i + 1;
    }
    proof {
        assert(input.take(n as int) =~= input);
    }
    *notes = sorted;
}

/// A note whose text is not blank.
pub open spec fn non_blank_note() -> spec_fn(NoteView) -> bool {
    |n: NoteView| !is_blank(n.content)
}

/// The notes read from their files, without the blank ones, newest first.
pub fn collect_notes(files: Vec<NoteFile>) -> (r: Vec<Note>)
    ensures
        notes_view(r@) == newest_first(files_view(files@).filter(non_blank_note())),
{
    let ghost keep = non_blank_note();
    let ghost input = files_view(files@);
    let mut out: Vec<Note> = Vec::new();
    let mut i: usize = 0;
    proof {
        assert(input.take(0) =~= Seq::<NoteView>::empty());
        reveal(Seq::filter);
        assert(input.take(0).filter(keep) =~= Seq::<NoteView>::empty());
        assert(notes_view(out@) =~= Seq::<NoteView>::empty());
    }
    while i < files.len()
        invariant
            input == files_view(files@),
            keep == non_blank_note(),
            i <= files.len(),
            notes_view(out@) == input.take(i as int).filter(keep),
        decreases files.len() - i,
    {
        let f = &files[i];
        let ghost prev = notes_view(out@);
        proof {
            input.take(i as int).lemma_filter_push(f@, keep);
            assert(input.take(i as int).push(f@) =~= input.take(i as int + 1));
            assert(input[i as int] == f@);
        }
        if !is_blank_text(f.content.as_str()) {
            out.push(f.to_note());
            proof {
                assert(notes_view(out@) =~= prev.push(f@));
            }
        }
        i = i + 1;
    }
    proof {
        assert(input.take(files.len() as int) =~= input);
    }
    sort_newest_first(&mut out);
    out
}

} // verus!
