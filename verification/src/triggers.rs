use vstd::prelude::*;
use crate::text::{
    char_is_alphanumeric, chars_of, is_alphanumeric, lemma_utf8_len_prefix_mono, prefix_utf8_len,
    utf8_len,
};

verus! {

/// What a trigger word does when it is spoken.
#[derive(Debug, Clone, Copy, PartialEq, Eq, Structural)]
pub enum TriggerActionType {
    /// The phrase is replaced by `action_value` as text.
    TextReplacement,
    /// The phrase becomes a press of the key named by `action_value`.
    KeyPress,
}

/// A spoken phrase and the action it stands for.
#[derive(Debug, Clone)]
pub struct TriggerWord {
    pub id: String,
    pub trigger_phrase: String,
    pub action_type: TriggerActionType,
    pub action_value: String,
    pub enabled: bool,
    pub is_builtin: bool,
}

/// `p` occurs in `text` at character index `j`.
pub open spec fn matches_at(text: Seq<char>, p: Seq<char>, j: int) -> bool {
    0 <= j && j + p.len() <= text.len() && text.subrange(j, j + p.len()) == p
}

/// The `n` characters at index `j` of `text` form a whole word: neither the
/// character before them nor the one after them is alphanumeric.
pub open spec fn at_word_boundary(text: Seq<char>, j: int, n: int) -> bool {
    &&& (j == 0 || !is_alphanumeric(text[j - 1]))
    &&& (j + n >= text.len() || !is_alphanumeric(text[j + n]))
}

/// Outcome of searching a text for a phrase at word boundaries.
pub enum Scan {
    /// Found at this character index.
    At(int),
    /// Not found.
    Absent,
}

/// The search for `p` in `text` from character index `j` onwards: every
/// occurrence is tried in order; one that is not a whole word is skipped by
/// resuming at the next character, and the search ends when no character
/// follows the one where the skipped occurrence starts.
pub open spec fn scan_from(text: Seq<char>, p: Seq<char>, j: int) -> Scan
    decreases text.len() + 1 - j,
{
    if j < 0 || j + p.len() > text.len() {
        Scan::Absent
    } else if !matches_at(text, p, j) {
        scan_from(text, p, j + 1)
    } else if at_word_boundary(text, j, p.len() as int) {
        Scan::At(j)
    } else if j + 1 >= text.len() {
        Scan::Absent
    } else {
        scan_from(text, p, j + 1)
    }
}

/// A position found by the search is an occurrence of `p` at a word boundary,
/// at or after the start of the search.
pub proof fn lemma_scan_found(text: Seq<char>, p: Seq<char>, j0: int)
    ensures
        scan_from(text, p, j0) matches Scan::At(j) ==> j0 <= j && matches_at(text, p, j)
            && at_word_boundary(text, j, p.len() as int),
    decreases text.len() + 1 - j0,
{
    if j0 >= 0 && j0 + p.len() <= text.len() {
        lemma_scan_found(text, p, j0 + 1);
    }
}

/// Whether `p` occurs in `text` at index `j`.
fn chars_match_at(text: &Vec<char>, p: &Vec<char>, j: usize) -> (r: bool)
    requires
        j + p.len() <= text.len(),
    ensures
        r == matches_at(text@, p@, j as int),
{
    let mut i: usize = 0;
    while i < p.len()
        invariant
            i <= p.len(),
            j + p.len() <= text.len(),
            forall|q: int| 0 <= q < i ==> text@[j + q] == p@[q],
        decreases p.len() - i,
    {
        if text[j + i] != p[i] {
            assert(text@.subrange(j as int, j + p.len())[i as int] != p@[i as int]);
            return false;
        }
        i += 1;
    }
    assert(text@.subrange(j as int, j + p.len()) =~= p@);
    true
}

/// Whether the `n` characters at `j` form a whole word of `text`.
fn chars_at_word_boundary(text: &Vec<char>, j: usize, n: usize) -> (r: bool)
    requires
        j + n <= text.len(),
    ensures
        r == at_word_boundary(text@, j as int, n as int),
{
    let at_start = j == 0 || !char_is_alphanumeric(text[j - 1]);
    let at_end = j + n >= text.len() || !char_is_alphanumeric(text[j + n]);
    at_start && at_end
}

/// Search `text` for `p` at word boundaries: `None` where `p` is not found,
/// `Some(j)` where it is found at character index `j`.
pub fn scan_chars(text: &Vec<char>, p: &Vec<char>) -> (r: Option<usize>)
    ensures
        match scan_from(text@, p@, 0) {
            Scan::At(j) => r == Some(j as usize),
            Scan::Absent => r is None,
        },
        scan_from(text@, p@, 0) matches Scan::At(j) ==> 0 <= j && j + p@.len() <= text@.len(),
{
    proof {
        lemma_scan_found(text@, p@, 0);
    }
    let n = text.len();
    let m = p.len();
    if m > n {
        return None;
    }
    let mut j: usize = 0;
    while j <= n - m
        invariant
            m <= n,
            n == text@.len(),
            m == p@.len(),
            j <= n - m + 1,
            scan_from(text@, p@, 0) == scan_from(text@, p@, j as int),
        decreases n - m + 1 - j,
    {
        proof {
            if m == 0 {
                assert(text@.subrange(j as int, j as int) =~= p@);
            }
        }
        if chars_match_at(text, p, j) {
            if chars_at_word_boundary(text, j, m) {
                return Some(j);
            }
            if n - j <= 1 {
                return None;
            }
        }
        j += 1;
    }
    None
}

/// Find a trigger phrase at a word boundary in the text.
/// Returns its byte position if found, `None` otherwise.
pub fn find_word_boundary_match(text: &str, phrase: &str) -> (r: Option<usize>)
    requires
        utf8_len(text@) <= usize::MAX,
    ensures
        match scan_from(text@, phrase@, 0) {
            Scan::At(j) => r == Some(utf8_len(text@.take(j)) as usize),
            Scan::Absent => r is None,
        },
{
    let t = chars_of(text);
    let p = chars_of(phrase);
    match scan_chars(&t, &p) {
        Some(j) => {
            proof {
                lemma_scan_found(t@, p@, 0);
            }
            let b = prefix_utf8_len(&t, j);
            proof {
                lemma_utf8_len_prefix_mono(t@, j as int, t@.len() as int);
                assert(t@.take(t@.len() as int) =~= t@);
            }
            Some(b as usize)
        },
        None => None,
    }
}

/// A whole-word occurrence of `p` in `text` at character index `j`.
pub open spec fn whole_word_at(text: Seq<char>, p: Seq<char>, j: int) -> bool {
    matches_at(text, p, j) && at_word_boundary(text, j, p.len() as int)
}

proof fn lemma_scan_first(text: Seq<char>, p: Seq<char>, j0: int)
    requires
        p.len() > 0,
        0 <= j0,
    ensures
        scan_from(text, p, j0) matches Scan::At(j) ==> forall|q: int|
            j0 <= q < j ==> !#[trigger] whole_word_at(text, p, q),
        scan_from(text, p, j0) is Absent ==> forall|q: int|
            j0 <= q ==> !#[trigger] whole_word_at(text, p, q),
    decreases text.len() + 1 - j0,
{
    if j0 + p.len() <= text.len() {
        if !matches_at(text, p, j0) || !at_word_boundary(text, j0, p.len() as int) {
            if j0 + 1 < text.len() {
                lemma_scan_first(text, p, j0 + 1);
            }
        }
    }
}

/// With a non-empty phrase, the search finds the first whole-word occurrence,
/// and finds none only where there is none.
pub proof fn search_finds_first_whole_word(text: Seq<char>, phrase: Seq<char>)
    requires
        phrase.len() > 0,
    ensures
        scan_from(text, phrase, 0) matches Scan::At(j) ==> whole_word_at(text, phrase, j) && forall|
            q: int,
        |
            0 <= q < j ==> !#[trigger] whole_word_at(text, phrase, q),
        scan_from(text, phrase, 0) is Absent ==> forall|q: int|
            0 <= q ==> !#[trigger] whole_word_at(text, phrase, q),
{
    lemma_scan_found(text, phrase, 0);
    lemma_scan_first(text, phrase, 0);
}

} // verus!
