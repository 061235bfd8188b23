//! Character-level text handling: whitespace, trimming, the editor's text,
//! previews and substring search.
use vstd::prelude::*;
use vstd::string::*;

verus! {

/// Unicode `White_Space`, the set that `char::is_whitespace` and `str::trim` use.
pub open spec fn is_ws(c: char) -> bool {
    ||| c == ' '
    ||| ('\t' <= c && c <= '\r')
    ||| c == '\u{85}'
    ||| c == '\u{a0}'
    ||| c == '\u{1680}'
    ||| ('\u{2000}' <= c && c <= '\u{200a}')
    ||| c == '\u{2028}'
    ||| c == '\u{2029}'
    ||| c == '\u{202f}'
    ||| c == '\u{205f}'
    ||| c == '\u{3000}'
}

pub open spec fn ws_pred() -> spec_fn(char) -> bool {
    |c: char| is_ws(c)
}

pub open spec fn newline_pred() -> spec_fn(char) -> bool {
    |c: char| c == '\n'
}

pub open spec fn non_space_pred() -> spec_fn(char) -> bool {
    |c: char| c != ' '
}

/// Number of leading characters of `s` that satisfy `p`.
pub open spec fn lead_len(s: Seq<char>, p: spec_fn(char) -> bool) -> nat
    decreases s.len(),
{
    if s.len() > 0 && p(s[0]) {
        1 + lead_len(s.drop_first(), p)
    } else {
        0
    }
}

/// Number of trailing characters of `s` that satisfy `p`.
pub open spec fn trail_len(s: Seq<char>, p: spec_fn(char) -> bool) -> nat
    decreases s.len(),
{
    if s.len() > 0 && p(s.last()) {
        1 + trail_len(s.drop_last(), p)
    } else {
        0
    }
}

/// Every character of `s` is whitespace (so `s.trim()` is empty).
pub open spec fn is_blank(s: Seq<char>) -> bool {
    forall|i: int| 0 <= i < s.len() ==> is_ws(#[trigger] s[i])
}

/// `s` without its leading and trailing whitespace, as `str::trim` gives it.
pub open spec fn trimmed(s: Seq<char>) -> Seq<char> {
    if is_blank(s) {
        Seq::empty()
    } else {
        s.subrange(lead_len(s, ws_pred()) as int, s.len() - trail_len(s, ws_pred()))
    }
}

/// `s` without the newlines at its end, as `trim_end_matches('\n')` gives it.
pub open spec fn strip_trailing_newlines(s: Seq<char>) -> Seq<char> {
    s.subrange(0, s.len() - trail_len(s, newline_pred()))
}

/// The text shown in place of a newline in a preview.
pub open spec fn newline_marker() -> Seq<char> {
    seq![' ', '\u{21b5}', ' ']
}

/// `s` with every newline replaced by `newline_marker()`.
pub open spec fn replace_newlines(s: Seq<char>) -> Seq<char>
    decreases s.len(),
{
    if s.len() == 0 {
        Seq::empty()
    } else {
        replace_newlines(s.drop_last()) + (if s.last() == '\n' {
            newline_marker()
        } else {
            seq![s.last()]
        })
    }
}

pub open spec fn ellipsis() -> Seq<char> {
    seq!['.', '.', '.']
}

/// At most `max` characters of `s`; a longer text is cut at the last space
/// among its first `max` characters (or at `max` when there is none) and
/// gets `"..."` appended.
pub open spec fn truncated(s: Seq<char>, max: nat) -> Seq<char> {
    if s.len() <= max {
        s
    } else {
        let cut = s.take(max as int);
        let tail = trail_len(cut, non_space_pred());
        if tail == cut.len() {
            cut + ellipsis()
        } else {
            cut.take(cut.len() - tail - 1) + ellipsis()
        }
    }
}

/// `needle` occurs in `hay` as a contiguous run of characters.
pub open spec fn has_substring(hay: Seq<char>, needle: Seq<char>) -> bool {
    exists|i: int|
        0 <= i && i + needle.len() <= hay.len() && #[trigger] hay.subrange(i, i + needle.len())
            == needle
}

pub proof fn lemma_lead_len(s: Seq<char>, p: spec_fn(char) -> bool, i: int)
    requires
        0 <= i <= s.len(),
        forall|k: int| 0 <= k < i ==> p(#[trigger] s[k]),
        i == s.len() || !p(s[i]),
    ensures
        lead_len(s, p) == i,
    decreases s.len(),
{
    if s.len() > 0 && p(s[0]) {
        assert(i > 0);
        let t = s.drop_first();
        assert forall|k: int| 0 <= k < i - 1 implies p(#[trigger] t[k]) by {
            assert(t[k] == s[k + 1]);
        }
        if i - 1 < t.len() {
            assert(t[i - 1] == s[i]);
        }
        lemma_lead_len(t, p, i - 1);
    } else {
        if i > 0 {
            assert(p(s[0]));
        }
    }
}

pub proof fn lemma_trail_len(s: Seq<char>, p: spec_fn(char) -> bool, j: int)
    requires
        0 <= j <= s.len(),
        forall|k: int| j <= k < s.len() ==> p(#[trigger] s[k]),
        j == 0 || !p(s[j - 1]),
    ensures
        trail_len(s, p) == s.len() - j,
    decreases s.len(),
{
    if s.len() > 0 && p(s.last()) {
        assert(j < s.len()) by {
            if j == s.len() {
                assert(s[j - 1] == s.last());
            }
        }
        let t = s.drop_last();
        assert forall|k: int| j <= k < t.len() implies p(#[trigger] t[k]) by {
            assert(t[k] == s[k]);
        }
        if j > 0 {
            assert(t[j - 1] == s[j - 1]);
        }
        lemma_trail_len(t, p, j);
    } else {
        if j < s.len() {
            assert(p(s[s.len() - 1]));
        }
    }
}

pub proof fn lemma_trail_len_bound(s: Seq<char>, p: spec_fn(char) -> bool)
    ensures
        trail_len(s, p) <= s.len(),
        forall|k: int| s.len() - trail_len(s, p) <= k < s.len() ==> p(#[trigger] s[k]),
        trail_len(s, p) < s.len() ==> !p(s[s.len() - trail_len(s, p) - 1]),
    decreases s.len(),
{
    if s.len() > 0 && p(s.last()) {
        let t = s.drop_last();
        lemma_trail_len_bound(t, p);
        assert forall|k: int| s.len() - trail_len(s, p) <= k < s.len() implies p(#[trigger] s[k]) by {
            if k < s.len() - 1 {
                assert(s[k] == t[k]);
            }
        }
        if trail_len(s, p) < s.len() {
            assert(s[s.len() - trail_len(s, p) - 1] == t[t.len() - trail_len(t, p) - 1]);
        }
    }
}

pub proof fn lemma_lead_len_bound(s: Seq<char>, p: spec_fn(char) -> bool)
    ensures
        lead_len(s, p) <= s.len(),
        forall|k: int| 0 <= k < lead_len(s, p) ==> p(#[trigger] s[k]),
        lead_len(s, p) < s.len() ==> !p(s[lead_len(s, p) as int]),
    decreases s.len(),
{
    if s.len() > 0 && p(s[0]) {
        let t = s.drop_first();
        lemma_lead_len_bound(t, p);
        assert forall|k: int| 0 <= k < lead_len(s, p) implies p(#[trigger] s[k]) by {
            if k > 0 {
                assert(s[k] == t[k - 1]);
            }
        }
        if lead_len(s, p) < s.len() {
            assert(s[lead_len(s, p) as int] == t[lead_len(t, p) as int]);
        }
    }
}

/// `char::is_whitespace`.
pub fn is_whitespace_char(c: char) -> (b: bool)
    ensures
        b == is_ws(c),
{
    c == ' ' || ('\t' <= c && c <= '\r') || c == '\u{85}' || c == '\u{a0}' || c == '\u{1680}' || (
    '\u{2000}' <= c && c <= '\u{200a}') || c == '\u{2028}' || c == '\u{2029}' || c == '\u{202f}'
        || c == '\u{205f}' || c == '\u{3000}'
}

/// The characters of `s`, in order.
pub fn chars_of(s: &str) -> (v: Vec<char>)
    ensures
        v@ == s@,
{
    let mut v: Vec<char> = Vec::new();
    for c in it: s.chars()
        invariant
            it.seq() == s@,
            v@ == it.seq().take(it.index() as int),
    {
        v.push(c);
    }
    v
}

/// Whether `s.trim()` is empty.
pub fn is_blank_text(s: &str) -> (b: bool)
    ensures
        b == is_blank(s@),
{
    let v = chars_of(s);
    let mut i: usize = 0;
    while i < v.len()
        invariant
            v@ == s@,
            i <= v.len(),
            forall|k: int| 0 <= k < i ==> is_ws(#[trigger] v@[k]),
        decreases v.len() - i,
    {
        if !is_whitespace_char(v[i]) {
            return false;
        }
        i = i + 1;
    }
    true
}

/// `s.trim()`: the text without leading and trailing whitespace.
pub fn trim_text(s: &str) -> (r: String)
    ensures
        r@ == trimmed(s@),
{
    let v = chars_of(s);
    let n = v.len();
    let mut i: usize = 0;
    while i < n && is_whitespace_char(v[i])
        invariant
            v@ == s@,
            n == v.len(),
            i <= n,
            forall|k: int| 0 <= k < i ==> is_ws(#[trigger] v@[k]),
        decreases n - i,
    {
        i = i + 1;
    }
    if i == n {
        proof {
            assert(is_blank(s@));
        }
        return String::new();
    }
    let mut j: usize = n;
    while j > i && is_whitespace_char(v[j - 1])
        invariant
            v@ == s@,
            n == v.len(),
            i < n,
            i <= j <= n,
            !is_ws(v@[i as int]),
            forall|k: int| j <= k < n ==> is_ws(#[trigger] v@[k]),
        decreases j,
    {
        j = j - 1;
    }
    proof {
        assert(!is_blank(s@)) by {
            assert(!is_ws(s@[i as int]));
        }
        lemma_lead_len(s@, ws_pred(), i as int);
        if j > 0 {
            assert(!is_ws(v@[j - 1]));
        }
        lemma_trail_len(s@, ws_pred(), j as int);
    }
    String::from_str(s.substring_char(i, j))
}

/// The editor's text as the notes keep it: the raw text without the
/// newlines at its end.
pub fn editor_text(raw: &str) -> (r: String)
    ensures
        r@ == strip_trailing_newlines(raw@),
{
    let v = chars_of(raw);
    let mut j: usize = v.len();
    while j > 0 && v[j - 1] == '\n'
        invariant
            v@ == raw@,
            j <= v.len(),
            forall|k: int| j <= k < v.len() ==> #[trigger] v@[k] == '\n',
        decreases j,
    {
        j = j - 1;
    }
    proof {
        lemma_trail_len(raw@, newline_pred(), j as int);
    }
    String::from_str(raw.substring_char(0, j))
}

/// Text with each newline shown as `" ↵ "`.
pub fn replace_newlines_text(s: &str) -> (r: String)
    ensures
        r@ == replace_newlines(s@),
{
    let v = chars_of(s);
    let n = v.len();
    let mut out = String::new();
    let mut start: usize = 0;
    let mut i: usize = 0;
    let marker = " \u{21b5} ";
    proof {
        reveal_strlit(" \u{21b5} ");
        assert(marker@ == newline_marker());
        assert(s@.take(0) == Seq::<char>::empty());
    }
    while i < n
        invariant
            v@ == s@,
            n == v.len(),
            start <= i <= n,
            marker@ == newline_marker(),
            out@ == replace_newlines(s@.take(start as int)),
            forall|k: int| start <= k < i ==> #[trigger] v@[k] != '\n',
        decreases n - i,
    {
        if v[i] == '\n' {
            proof {
                lemma_replace_plain_run(s@, start as int, i as int);
            }
            out.append(s.substring_char(start, i));
            out.append(marker);
            proof {
                let pre = s@.take(i as int + 1);
                assert(pre.drop_last() == s@.take(i as int));
                assert(pre.last() == '\n');
            }
            start = i + 1;
        }
        i = i + 1;
    }
    proof {
        lemma_replace_plain_run(s@, start as int, n as int);
        assert(s@.take(n as int) == s@);
    }
    out.append(s.substring_char(start, n));
    out
}

/// Replacing newlines in a prefix followed by a run without newlines.
pub proof fn lemma_replace_plain_run(s: Seq<char>, start: int, end: int)
    requires
        0 <= start <= end <= s.len(),
        forall|k: int| start <= k < end ==> #[trigger] s[k] != '\n',
    ensures
        replace_newlines(s.take(end)) == replace_newlines(s.take(start)) + s.subrange(start, end),
    decreases end - start,
{
    if end > start {
        lemma_replace_plain_run(s, start, end - 1);
        let pre = s.take(end);
        assert(pre.drop_last() == s.take(end - 1));
        assert(pre.last() == s[end - 1]);
        assert(s.subrange(start, end) == s.subrange(start, end - 1) + seq![s[end - 1]]);
    } else {
        assert(s.subrange(start, end) == Seq::<char>::empty());
    }
}

/// Cuts `s` to at most `max_chars` characters at a word boundary and marks
/// the cut with `"..."`; a text that fits is returned unchanged.
pub fn truncate_at_word(s: &str, max_chars: usize) -> (r: String)
    ensures
        r@ == truncated(s@, max_chars as nat),
{
    let n = s.unicode_len();
    if n <= max_chars {
        return String::from_str(s);
    }
    let v = chars_of(s);
    let ghost cut = s@.take(max_chars as int);
    let mut j: usize = max_chars;
    while j > 0 && v[j - 1] != ' '
        invariant
            v@ == s@,
            max_chars < v.len(),
            cut == s@.take(max_chars as int),
            j <= max_chars,
            forall|k: int| j <= k < max_chars ==> #[trigger] v@[k] != ' ',
        decreases j,
    {
        j = j - 1;
    }
    proof {
        assert forall|k: int| j <= k < cut.len() implies (non_space_pred())(#[trigger] cut[k]) by {
            assert(cut[k] == v@[k]);
        }
        if j > 0 {
            assert(cut[j - 1] == v@[j - 1]);
        }
        lemma_trail_len(cut, non_space_pred(), j as int);
        reveal_strlit("...");
    }
    let mut out: String;
    if j == 0 {
        out = String::from_str(s.substring_char(0, max_chars));
    } else {
        out = String::from_str(s.substring_char(0, j - 1));
        proof {
            assert(s@.subrange(0, j - 1) == cut.take(j - 1));
        }
    }
    out.append("...");
    proof {
        assert("..."@ == ellipsis());
    }
    out
}

/// Whether two texts are equal, character by character.
pub fn same_text(a: &str, b: &str) -> (r: bool)
    ensures
        r == (a@ == b@),
{
    let x = chars_of(a);
    let y = chars_of(b);
    if x.len() != y.len() {
        return false;
    }
    let mut i: usize = 0;
    while i < x.len()
        invariant
            x@ == a@,
            y@ == b@,
            x.len() == y.len(),
            i <= x.len(),
            forall|k: int| 0 <= k < i ==> x@[k] == y@[k],
        decreases x.len() - i,
    {
        if x[i] != y[i] {
            return false;
        }
        i = i + 1;
    }
    proof {
        assert(x@ =~= y@);
    }
    true
}

/// Whether `needle` occurs in `hay`, character by character.
pub fn contains_chars(hay: &Vec<char>, needle: &Vec<char>) -> (b: bool)
    ensures
        b == has_substring(hay@, needle@),
{
    let n = hay.len();
    let m = needle.len();
    if m > n {
        return false;
    }
    let mut i: usize = 0;
    while i <= n - m
        invariant
            n == hay.len(),
            m == needle.len(),
            m <= n,
            i <= n - m + 1,
            forall|k: int| 0 <= k < i ==> #[trigger] hay@.subrange(k, k + m) != needle@,
        decreases n - m + 1 - i,
    {
        let mut j: usize = 0;
        while j < m && hay[i + j] == needle[j]
            invariant
                n == hay.len(),
                m == needle.len(),
                i + m <= n,
                j <= m,
                forall|k: int| 0 <= k < j ==> hay@[i + k] == needle@[k],
            decreases m - j,
        {
            j = j + 1;
        }
        if j == m {
            proof {
                assert(hay@.subrange(i as int, i + m) == needle@);
            }
            return true;
        }
        proof {
            assert(hay@.subrange(i as int, i + m)[j as int] != needle@[j as int]);
        }
        i = i + 1;
    }
    proof {
        assert forall|k: int| 0 <= k && k + needle@.len() <= hay@.len() implies #[trigger] hay@.subrange(
            k,
            k + needle@.len(),
        ) != needle@ by {
            assert(k < i);
        }
    }
    false
}

/// Whether `needle` occurs in `hay`, as `str::contains` with a string pattern.
pub fn contains_text(hay: &str, needle: &str) -> (b: bool)
    ensures
        b == has_substring(hay@, needle@),
{
    let h = chars_of(hay);
    let nd = chars_of(needle);
    contains_chars(&h, &nd)
}

} // verus!
