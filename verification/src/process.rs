use vstd::prelude::*;
use crate::text::{
    boundary_index, char_index_at_byte, chars_of, lowercase,
    prefix_utf8_len, str_to_lowercase, string_from_range, trim_end, trim_end_at, trim_start,
    trim_start_at, trim_start_punctuation, trim_start_punctuation_at, utf8_len, chars_in_range,
    lemma_trims_shorten, lemma_utf8_len_at_least_len, lemma_boundary_unique, is_white_space,
    trim_end_drops_only_trailing_white_space,
};
use crate::segments::{
    flush_text, key_presses, lemma_key_presses_concat, lemma_key_presses_flush, merge_keeps_key_presses,
    merge_normalizes, merge_text_only, merge_text_segments, merged, normalized, segments_view,
    OutputSegment, SegmentView,
};
use crate::triggers::{scan_chars, scan_from, Scan, TriggerActionType, TriggerWord};

verus! {

/// Where the phrase of `t` is found in `rem`: the search runs on the
/// lowercased text for the lowercased phrase, so case does not matter.
pub open spec fn phrase_scan(rem: Seq<char>, t: TriggerWord) -> Scan {
    scan_from(lowercase(rem), lowercase(t.trigger_phrase@), 0)
}

/// The lowercased phrases of the triggers.
pub open spec fn lowered_phrases(tws: Seq<TriggerWord>) -> Seq<Seq<char>> {
    tws.map_values(|t: TriggerWord| lowercase(t.trigger_phrase@))
}

/// The trigger chosen among the first `n` of `tws`.
pub enum Pick {
    /// No enabled phrase is found.
    Nothing,
    /// Trigger `tws[i]` is found at character index `j` of the lowercased text.
    Found(int, int),
}

/// The enabled trigger found earliest in the lowercased text `low` among
/// `tws[..n]`, each searched for by its lowercased phrase in `lower_phrases`;
/// at the same position the one whose phrase has more bytes, then the one
/// listed first.
pub open spec fn pick_among(
    low: Seq<char>,
    lower_phrases: Seq<Seq<char>>,
    tws: Seq<TriggerWord>,
    n: int,
) -> Pick
    decreases n,
{
    if n <= 0 {
        Pick::Nothing
    } else {
        let prev = pick_among(low, lower_phrases, tws, n - 1);
        let t = tws[n - 1];
        if !t.enabled {
            prev
        } else {
            match scan_from(low, lower_phrases[n - 1], 0) {
                Scan::Absent => prev,
                Scan::At(j) => match prev {
                    Pick::Found(i, q) => if j < q || (j == q && utf8_len(t.trigger_phrase@)
                        > utf8_len(tws[i].trigger_phrase@)) {
                        Pick::Found(n - 1, j)
                    } else {
                        prev
                    },
                    Pick::Nothing => Pick::Found(n - 1, j),
                },
            }
        }
    }
}

/// The trigger chosen for `rem` among `tws[..n]`.
pub open spec fn pick(rem: Seq<char>, tws: Seq<TriggerWord>, n: int) -> Pick {
    pick_among(lowercase(rem), lowered_phrases(tws), tws, n)
}

/// The segment that a trigger produces.
pub open spec fn action_segment(t: TriggerWord) -> SegmentView {
    match t.action_type {
        TriggerActionType::KeyPress => SegmentView::KeyPress(t.action_value@),
        TriggerActionType::TextReplacement => SegmentView::Text(t.action_value@),
    }
}

/// One round of the rewriting of `rem`.
pub enum Step {
    /// A slice of `rem` falls inside a multi-byte character and panics.
    Panic,
    /// No trigger applies: these are the last segments.
    Finish(Seq<SegmentView>),
    /// These segments are produced and the rest of the text is left to rewrite.
    Continue(Seq<SegmentView>, Seq<char>),
}

/// Applying trigger `t`, found at character index `j` of `low`, the
/// lowercased `rem`: the text before it (with trailing white space trimmed,
/// dropped when empty), then its action; the text after the phrase remains,
/// with leading white space trimmed and, after a key press, leading
/// punctuation too. The byte offsets found in `low` are applied to `rem`
/// itself; where they fall inside a character of `rem`, slicing panics.
pub open spec fn step_with(rem: Seq<char>, low: Seq<char>, t: TriggerWord, j: int) -> Step {
    let pos = utf8_len(low.take(j));
    let end = pos + utf8_len(t.trigger_phrase@);
    if pos > 0 && boundary_index(rem, pos as int) is None {
        Step::Panic
    } else {
        let before = if pos > 0 {
            flush_text(trim_end(rem.take(boundary_index(rem, pos as int)->0)))
        } else {
            seq![]
        };
        let produced = before + seq![action_segment(t)];
        if end < utf8_len(rem) {
            match boundary_index(rem, end as int) {
                None => Step::Panic,
                Some(k) => {
                    let after = rem.skip(k);
                    let after = if t.action_type == TriggerActionType::KeyPress {
                        trim_start_punctuation(after)
                    } else {
                        after
                    };
                    Step::Continue(produced, trim_start(after))
                },
            }
        } else {
            Step::Continue(produced, seq![])
        }
    }
}

/// Applying trigger `t`, found at character index `j` of `lowercase(rem)`.
pub open spec fn step_at(rem: Seq<char>, t: TriggerWord, j: int) -> Step {
    step_with(rem, lowercase(rem), t, j)
}

/// One round: pick a trigger and apply it.
pub open spec fn step(rem: Seq<char>, tws: Seq<TriggerWord>) -> Step {
    match pick(rem, tws, tws.len() as int) {
        Pick::Nothing => Step::Finish(seq![SegmentView::Text(rem)]),
        Pick::Found(i, j) => step_at(rem, tws[i], j),
    }
}

/// The segments produced from `rem` until it is used up, or `None` where the
/// rewriting panics or never ends (a round that leaves the text unchanged
/// repeats forever).
pub open spec fn run(rem: Seq<char>, tws: Seq<TriggerWord>) -> Option<Seq<SegmentView>>
    decreases rem.len(),
{
    if rem.len() == 0 {
        Some(seq![])
    } else {
        match step(rem, tws) {
            Step::Panic => None,
            Step::Finish(s) => Some(s),
            Step::Continue(s, next) => if next.len() < rem.len() {
                match run(next, tws) {
                    Some(r) => Some(s + r),
                    None => None,
                }
            } else {
                None
            },
        }
    }
}

/// Some trigger of `tws` is enabled.
pub open spec fn has_enabled(tws: Seq<TriggerWord>) -> bool {
    exists|i: int| 0 <= i < tws.len() && #[trigger] tws[i].enabled
}

/// What `process_trigger_words` returns for `text`, or `None` where the
/// rewriting slices the text inside a character (a byte offset found in the
/// lowercased text does not fall on a character boundary of the text) or does
/// not terminate: the whole text as one segment when no trigger is enabled,
/// else the merged segments of the rewriting.
pub open spec fn trigger_output(text: Seq<char>, tws: Seq<TriggerWord>) -> Option<Seq<SegmentView>> {
    if !has_enabled(tws) {
        Some(seq![SegmentView::Text(text)])
    } else {
        match run(text, tws) {
            Some(s) => Some(merged(s)),
            None => None,
        }
    }
}


/// The lengths in bytes of the triggers' phrases.
pub open spec fn phrase_lengths(tws: Seq<TriggerWord>, phrase_lens: Seq<u128>) -> bool {
    &&& phrase_lens.len() == tws.len()
    &&& forall|k: int|
        0 <= k < tws.len() ==> #[trigger] phrase_lens[k] == utf8_len(tws[k].trigger_phrase@)
            && phrase_lens[k] <= 4 * usize::MAX
}

/// The characters of each vector.
pub open spec fn char_vecs_view(v: Seq<Vec<char>>) -> Seq<Seq<char>> {
    v.map_values(|x: Vec<char>| x@)
}

/// Choose the trigger that applies first to a text, given lowercased as
/// `rem_lower`, each trigger searched for by its lowercased phrase in
/// `lower_phrases`: `None` where none applies, `Some((i, j))` for trigger `i`
/// found at index `j` of `rem_lower`.
pub fn pick_trigger(
    rem_lower: &Vec<char>,
    tws: &[TriggerWord],
    lower_phrases: &Vec<Vec<char>>,
    phrase_lens: &Vec<u128>,
) -> (r: Option<(usize, usize)>)
    requires
        lower_phrases@.len() == tws@.len(),
        phrase_lengths(tws@, phrase_lens@),
    ensures
        match pick_among(rem_lower@, char_vecs_view(lower_phrases@), tws@, tws@.len() as int) {
            Pick::Nothing => r is None,
            Pick::Found(i, j) => r == Some((i as usize, j as usize)),
        },
        pick_among(rem_lower@, char_vecs_view(lower_phrases@), tws@, tws@.len() as int) matches Pick::Found(
            i,
            j,
        ) ==> 0 <= i < tws@.len() && 0 <= j <= rem_lower@.len(),
{
    let ghost lp = char_vecs_view(lower_phrases@);
    let mut best: Option<(usize, usize)> = None;
    let mut k: usize = 0;
    while k < tws.len()
        invariant
            k <= tws@.len(),
            lower_phrases@.len() == tws@.len(),
            lp == char_vecs_view(lower_phrases@),
            phrase_lengths(tws@, phrase_lens@),
            pick_among(rem_lower@, lp, tws@, k as int) is Nothing ==> best is None,
            pick_among(rem_lower@, lp, tws@, k as int) matches Pick::Found(i, j) ==> 0 <= i < k && 0
                <= j <= rem_lower@.len(),
            pick_among(rem_lower@, lp, tws@, k as int) matches Pick::Found(i, j) ==> best == Some(
                (i as usize, j as usize),
            ),
        decreases tws.len() - k,
    {
        proof {
            assert(lp[k as int] == lower_phrases@[k as int]@);
            assert(phrase_lens@[k as int] == utf8_len(tws@[k as int].trigger_phrase@));
            if let Pick::Found(i, _) = pick_among(rem_lower@, lp, tws@, k as int) {
                assert(phrase_lens@[i] == utf8_len(tws@[i].trigger_phrase@));
            }
        }
        if tws[k].enabled {
            match scan_chars(rem_lower, &lower_phrases[k]) {
                None => {},
                Some(j) => {
                    proof {
                        assert(rem_lower@.len() == rem_lower.len());
                        assert(scan_from(rem_lower@, lp[k as int], 0) == Scan::At(j as int));
                    }
                    match best {
                        None => {
                            best = Some((k, j));
                        },
                        Some((bi, bj)) => {
                            if j < bj || (j == bj && phrase_lens[k] > phrase_lens[bi]) {
                                best = Some((k, j));
                            }
                        },
                    }
                },
            }
        }
        k += 1;
    }
    best
}

/// The segment that trigger `t` produces.
fn action_of(t: &TriggerWord) -> (seg: OutputSegment)
    ensures
        seg@ == action_segment(*t),
{
    match t.action_type {
        TriggerActionType::KeyPress => OutputSegment::KeyPress(t.action_value.clone()),
        TriggerActionType::TextReplacement => OutputSegment::Text(t.action_value.clone()),
    }
}

/// Apply trigger `t`, found at index `j` of `rem_lower` (the lowercased `rem`):
/// `None` where a slice panics, else the produced segments and the rest.
pub fn apply_trigger(
    rem: &Vec<char>,
    rem_lower: &Vec<char>,
    t: &TriggerWord,
    j: usize,
    phrase_len: u128,
) -> (r: Option<(Vec<OutputSegment>, Vec<char>)>)
    requires
        j <= rem_lower.len(),
        phrase_len == utf8_len(t.trigger_phrase@),
        phrase_len <= 4 * usize::MAX,
    ensures
        match step_with(rem@, rem_lower@, *t, j as int) {
            Step::Panic => r is None,
            Step::Continue(produced, next) => r matches Some((segs, rest)) && segments_view(segs@)
                == produced && rest@ == next,
            Step::Finish(_) => false,
        },
{
    let pos = prefix_utf8_len(rem_lower, j);
    let mut segs: Vec<OutputSegment> = Vec::new();
    if pos > 0 {
        match char_index_at_byte(rem, pos) {
            None => {
                return None;
            },
            Some(k) => {
                let e = trim_end_at(rem, 0, k);
                assert(rem@.take(k as int) =~= rem@.subrange(0, k as int));
                if e > 0 {
                    segs.push(OutputSegment::Text(string_from_range(rem, 0, e)));
                }
                assert(segments_view(segs@) =~= flush_text(trim_end(rem@.take(k as int))));
            },
        }
    } else {
        assert(segments_view(segs@) =~= Seq::<SegmentView>::empty());
    }
    let ghost before = segments_view(segs@);
    segs.push(action_of(t));
    assert(segments_view(segs@) =~= before + seq![action_segment(*t)]);
    let end = pos + phrase_len;
    let total = prefix_utf8_len(rem, rem.len());
    assert(rem@.take(rem@.len() as int) =~= rem@);
    if end < total {
        match char_index_at_byte(rem, end) {
            None => None,
            Some(k) => {
                let n = rem.len();
                let s = if t.action_type == TriggerActionType::KeyPress {
                    trim_start_punctuation_at(rem, k, n)
                } else {
                    k
                };
                let b = trim_start_at(rem, s, n);
                assert(rem@.skip(k as int) =~= rem@.subrange(k as int, n as int));
                Some((segs, chars_in_range(rem, b, n)))
            },
        }
    } else {
        Some((segs, Vec::new()))
    }
}


/// `prefix` placed before a possible result.
pub open spec fn prepend(prefix: Seq<SegmentView>, r: Option<Seq<SegmentView>>) -> Option<
    Seq<SegmentView>,
> {
    match r {
        Some(s) => Some(prefix + s),
        None => None,
    }
}

/// The lowercased phrases of `tws` and their lengths in bytes.
fn phrase_tables_of(tws: &[TriggerWord]) -> (r: (Vec<Vec<char>>, Vec<u128>))
    ensures
        char_vecs_view(r.0@) == lowered_phrases(tws@),
        r.0@.len() == tws@.len(),
        phrase_lengths(tws@, r.1@),
{
    let mut lower_phrases: Vec<Vec<char>> = Vec::new();
    let mut phrase_lens: Vec<u128> = Vec::new();
    let mut k: usize = 0;
    while k < tws.len()
        invariant
            k <= tws@.len(),
            lower_phrases@.len() == k,
            phrase_lens@.len() == k,
            forall|q: int|
                0 <= q < k ==> #[trigger] lower_phrases@[q]@ == lowercase(tws@[q].trigger_phrase@),
            forall|q: int|
                0 <= q < k ==> #[trigger] phrase_lens@[q] == utf8_len(tws@[q].trigger_phrase@)
                    && phrase_lens@[q] <= 4 * usize::MAX,
        decreases tws.len() - k,
    {
        let phrase = chars_of(tws[k].trigger_phrase.as_str());
        let len = prefix_utf8_len(&phrase, phrase.len());
        assert(phrase@.take(phrase@.len() as int) =~= phrase@);
        lower_phrases.push(chars_of(str_to_lowercase(tws[k].trigger_phrase.as_str()).as_str()));
        phrase_lens.push(len);
        k += 1;
    }
    assert(char_vecs_view(lower_phrases@) =~= lowered_phrases(tws@));
    (lower_phrases, phrase_lens)
}

/// The rewriting of `text` by `tws`, unmerged: `None` where it panics or
/// does not terminate.
fn rewrite(text: &str, tws: &[TriggerWord]) -> (r: Option<Vec<OutputSegment>>)
    ensures
        match run(text@, tws@) {
            Some(s) => r matches Some(v) && segments_view(v@) == s,
            None => r is None,
        },
{
    let (lower_phrases, phrase_lens) = phrase_tables_of(tws);
    let mut rem = chars_of(text);
    let mut segs: Vec<OutputSegment> = Vec::new();
    let ghost target = run(text@, tws@);
    assert(segments_view(segs@) + Seq::<SegmentView>::empty() =~= Seq::<SegmentView>::empty());
    assert(prepend(segments_view(segs@), run(rem@, tws@)) =~~= run(rem@, tws@));
    while rem.len() > 0
        invariant
            char_vecs_view(lower_phrases@) == lowered_phrases(tws@),
            lower_phrases@.len() == tws@.len(),
            phrase_lengths(tws@, phrase_lens@),
            target == run(text@, tws@),
            target == prepend(segments_view(segs@), run(rem@, tws@)),
        decreases rem.len(),
    {
        let rem_lower = chars_of(str_to_lowercase(string_from_range(&rem, 0, rem.len()).as_str()).as_str());
        assert(rem@.subrange(0, rem@.len() as int) =~= rem@);
        assert(lowered_phrases(tws@).len() == tws@.len());
        match pick_trigger(&rem_lower, tws, &lower_phrases, &phrase_lens) {
            None => {
                let ghost before = segments_view(segs@);
                segs.push(OutputSegment::Text(string_from_range(&rem, 0, rem.len())));
                assert(segments_view(segs@) =~= before + seq![SegmentView::Text(rem@)]);
                return Some(segs);
            },
            Some((i, j)) => {
                proof {
                    assert(phrase_lens@[i as int] == utf8_len(tws@[i as int].trigger_phrase@));
                }
                match apply_trigger(&rem, &rem_lower, &tws[i], j, phrase_lens[i]) {
                    None => {
                        return None;
                    },
                    Some((produced, rest)) => {
                        if rest.len() >= rem.len() {
                            return None;
                        }
                        let ghost before = segments_view(segs@);
                        let ghost new_segs = segments_view(produced@);
                        let mut produced = produced;
                        segs.append(&mut produced);
                        assert(segments_view(segs@) =~= before + new_segs);
                        proof {
                            match run(rest@, tws@) {
                                Some(r) => {
                                    assert(before + (new_segs + r) =~= before + new_segs + r);
                                },
                                None => {},
                            }
                        }
                        rem = rest;
                    },
                }
            },
        }
    }
    assert(segments_view(segs@) + Seq::<SegmentView>::empty() =~= segments_view(segs@));
    Some(segs)
}

/// Whether some trigger is enabled.
fn any_enabled(tws: &[TriggerWord]) -> (r: bool)
    ensures
        r == has_enabled(tws@),
{
    let mut k: usize = 0;
    while k < tws.len()
        invariant
            k <= tws@.len(),
            forall|q: int| 0 <= q < k ==> !(#[trigger] tws@[q]).enabled,
        decreases tws.len() - k,
    {
        if tws[k].enabled {
            return true;
        }
        k += 1;
    }
    false
}

/// The segments for `text`, or `None` where the rewriting fails (see `trigger_output`).
fn trigger_segments(text: &str, trigger_words: &[TriggerWord]) -> (r: Option<Vec<OutputSegment>>)
    ensures
        match trigger_output(text@, trigger_words@) {
            Some(s) => r matches Some(v) && segments_view(v@) == s,
            None => r is None,
        },
{
    if !any_enabled(trigger_words) {
        let v = vec![OutputSegment::Text(text.to_owned())];
        assert(segments_view(v@) =~= seq![SegmentView::Text(text@)]);
        return Some(v);
    }
    match rewrite(text, trigger_words) {
        None => None,
        Some(segs) => Some(merge_text_segments(segs)),
    }
}

/// Process text through trigger word replacement.
/// Returns segments to be output (text and key presses interleaved).
/// Its precondition depends on how the text lowercases; callers that cannot
/// establish it use `process_trigger_words_checked`, which takes every input.
pub fn process_trigger_words(text: &str, trigger_words: &[TriggerWord]) -> (segments: Vec<
    OutputSegment,
>)
    requires
        trigger_output(text@, trigger_words@) is Some,
    ensures
        segments_view(segments@) == trigger_output(text@, trigger_words@)->0,
{
    match trigger_segments(text, trigger_words) {
        Some(segments) => segments,
        None => Vec::new(),
    }
}

/// `process_trigger_words` on every input: `None` exactly where the rewriting
/// would slice the text inside a character or never end (see `trigger_output`).
pub fn process_trigger_words_checked(text: &str, trigger_words: &[TriggerWord]) -> (r: Option<
    Vec<OutputSegment>,
>)
    ensures
        r is None <==> trigger_output(text@, trigger_words@) is None,
        r matches Some(segments) ==> segments_view(segments@) == trigger_output(
            text@,
            trigger_words@,
        )->0,
{
    trigger_segments(text, trigger_words)
}

/// Trigger `i`, found at `j`, ranks before trigger `k`, found at `jk`: it is
/// found earlier, or at the same place with a phrase of more bytes, or with a
/// phrase of as many bytes and listed no later.
pub open spec fn ranks_before(tws: Seq<TriggerWord>, i: int, j: int, k: int, jk: int) -> bool {
    ||| j < jk
    ||| j == jk && utf8_len(tws[i].trigger_phrase@) > utf8_len(tws[k].trigger_phrase@)
    ||| j == jk && utf8_len(tws[i].trigger_phrase@) == utf8_len(tws[k].trigger_phrase@) && i <= k
}

/// The trigger chosen in a round is an enabled one that is found and ranks
/// before every other enabled trigger that is found; none is chosen only when
/// no enabled phrase is found.
pub proof fn pick_chooses_first_ranked(rem: Seq<char>, tws: Seq<TriggerWord>, n: int)
    requires
        0 <= n <= tws.len(),
    ensures
        pick(rem, tws, n) matches Pick::Found(i, j) ==> {
            &&& 0 <= i < n
            &&& tws[i].enabled
            &&& phrase_scan(rem, tws[i]) == Scan::At(j)
            &&& forall|k: int|
                0 <= k < n && tws[k].enabled ==> (#[trigger] phrase_scan(rem, tws[k]) matches Scan::At(
                    jk,
                ) ==> ranks_before(tws, i, j, k, jk))
        },
        pick(rem, tws, n) is Nothing ==> forall|k: int|
            0 <= k < n && tws[k].enabled ==> #[trigger] phrase_scan(rem, tws[k]) is Absent,
    decreases n,
{
    if n > 0 {
        pick_chooses_first_ranked(rem, tws, n - 1);
        assert(lowered_phrases(tws)[n - 1] == lowercase(tws[n - 1].trigger_phrase@));
    }
}


/// `k` is the key named by some enabled key-press trigger.
pub open spec fn is_key_of_trigger(tws: Seq<TriggerWord>, k: Seq<char>) -> bool {
    exists|i: int|
        0 <= i < tws.len() && tws[i].enabled && tws[i].action_type == TriggerActionType::KeyPress
            && #[trigger] tws[i].action_value@ == k
}

proof fn lemma_run_keys(rem: Seq<char>, tws: Seq<TriggerWord>)
    ensures
        run(rem, tws) matches Some(s) ==> forall|m: int|
            0 <= m < key_presses(s).len() ==> is_key_of_trigger(tws, #[trigger] key_presses(s)[m]),
    decreases rem.len(),
{
    if rem.len() > 0 {
        pick_chooses_first_ranked(rem, tws, tws.len() as int);
        match step(rem, tws) {
            Step::Finish(s) => {
                assert(s.drop_first() =~= Seq::<SegmentView>::empty());
                assert(key_presses(Seq::<SegmentView>::empty()) =~= Seq::<Seq<char>>::empty());
            },
            Step::Continue(produced, next) => {
                if next.len() < rem.len() {
                    lemma_run_keys(next, tws);
                    if let Pick::Found(i, j) = pick(rem, tws, tws.len() as int) {
                        let t = tws[i];
                        let pos = utf8_len(lowercase(rem).take(j));
                        let before = if pos > 0 {
                            flush_text(trim_end(rem.take(boundary_index(rem, pos as int)->0)))
                        } else {
                            seq![]
                        };
                        let a = seq![action_segment(t)];
                        assert(produced == before + a);
                        if pos > 0 {
                            lemma_key_presses_flush(
                                trim_end(rem.take(boundary_index(rem, pos as int)->0)),
                            );
                        }
                        assert(key_presses(before) =~= Seq::<Seq<char>>::empty());
                        assert(a.drop_first() =~= Seq::<SegmentView>::empty());
                        assert(key_presses(Seq::<SegmentView>::empty()) =~= Seq::<Seq<char>>::empty());
                        lemma_key_presses_concat(before, a);
                        if let Some(r) = run(next, tws) {
                            lemma_key_presses_concat(produced, r);
                            let ks = key_presses(produced + r);
                            assert forall|m: int| 0 <= m < ks.len() implies is_key_of_trigger(
                                tws,
                                #[trigger] ks[m],
                            ) by {
                                let kp = key_presses(produced);
                                if m < kp.len() {
                                    assert(t.action_type == TriggerActionType::KeyPress);
                                    assert(ks[m] == t.action_value@);
                                } else {
                                    assert(ks[m] == key_presses(r)[m - kp.len()]);
                                }
                            }
                        }
                    }
                }
            },
            Step::Panic => {},
        }
    }
}

/// Every key pressed in the output is named by an enabled key-press trigger.
pub proof fn keys_come_from_enabled_key_triggers(text: Seq<char>, tws: Seq<TriggerWord>)
    requires
        trigger_output(text, tws) is Some,
    ensures
        forall|m: int|
            0 <= m < key_presses(trigger_output(text, tws)->0).len() ==> is_key_of_trigger(
                tws,
                #[trigger] key_presses(trigger_output(text, tws)->0)[m],
            ),
{
    if has_enabled(tws) {
        lemma_run_keys(text, tws);
        merge_keeps_key_presses(run(text, tws)->0);
    } else {
        let out = seq![SegmentView::Text(text)];
        assert(out.drop_first() =~= Seq::<SegmentView>::empty());
        assert(key_presses(Seq::<SegmentView>::empty()) =~= Seq::<Seq<char>>::empty());
        assert(key_presses(out) =~= Seq::<Seq<char>>::empty());
    }
}

/// When no enabled trigger is a key press, the output is at most one segment,
/// of text: all replacements are merged into the surrounding text.
pub proof fn text_replacements_give_one_text_segment(text: Seq<char>, tws: Seq<TriggerWord>)
    requires
        trigger_output(text, tws) is Some,
        forall|i: int|
            0 <= i < tws.len() && #[trigger] tws[i].enabled ==> tws[i].action_type
                == TriggerActionType::TextReplacement,
    ensures
        trigger_output(text, tws)->0.len() <= 1,
        forall|m: int|
            0 <= m < trigger_output(text, tws)->0.len() ==> #[trigger] trigger_output(
                text,
                tws,
            )->0[m] is Text,
{
    if has_enabled(tws) {
        let s = run(text, tws)->0;
        lemma_run_keys(text, tws);
        if key_presses(s).len() > 0 {
            assert(is_key_of_trigger(tws, key_presses(s)[0]));
        }
        merge_text_only(s);
    }
}

/// When some trigger is enabled, the output has no empty text segment and no
/// two adjacent text segments.
pub proof fn triggered_output_is_normalized(text: Seq<char>, tws: Seq<TriggerWord>)
    requires
        has_enabled(tws),
        trigger_output(text, tws) is Some,
    ensures
        normalized(trigger_output(text, tws)->0),
{
    merge_normalizes(run(text, tws)->0);
}

/// When no trigger is enabled, the text comes back whole as one text segment.
pub proof fn no_enabled_trigger_keeps_text(text: Seq<char>, tws: Seq<TriggerWord>)
    requires
        forall|i: int| 0 <= i < tws.len() ==> !(#[trigger] tws[i].enabled),
    ensures
        trigger_output(text, tws) == Some(seq![SegmentView::Text(text)]),
{
}


/// When every enabled phrase is non-empty, each round strictly shortens the
/// text left to rewrite, so the rewriting never repeats a round forever.
pub proof fn nonempty_phrases_always_progress(rem: Seq<char>, tws: Seq<TriggerWord>)
    requires
        rem.len() > 0,
        forall|i: int|
            0 <= i < tws.len() && #[trigger] tws[i].enabled ==> tws[i].trigger_phrase@.len() > 0,
    ensures
        step(rem, tws) matches Step::Continue(_, next) ==> next.len() < rem.len(),
{
    pick_chooses_first_ranked(rem, tws, tws.len() as int);
    if let Pick::Found(i, j) = pick(rem, tws, tws.len() as int) {
        let t = tws[i];
        lemma_utf8_len_at_least_len(t.trigger_phrase@);
        let pos = utf8_len(lowercase(rem).take(j));
        let end = pos + utf8_len(t.trigger_phrase@);
        if end < utf8_len(rem) {
            if let Some(k) = boundary_index(rem, end as int) {
                assert(utf8_len(rem.take(k)) == end);
                if k == 0 {
                    assert(rem.take(0) =~= Seq::<char>::empty());
                }
                lemma_trims_shorten(rem.skip(k));
                lemma_trims_shorten(trim_start_punctuation(rem.skip(k)));
            }
        }
    }
}

/// `pick` with the trigger at `d` removed, when that trigger is disabled:
/// the same choice, with later indices moved down by one.
pub open spec fn pick_without(p: Pick, d: int) -> Pick {
    match p {
        Pick::Found(i, j) => Pick::Found(if i > d { i - 1 } else { i }, j),
        _ => p,
    }
}

proof fn lemma_pick_remove(rem: Seq<char>, tws: Seq<TriggerWord>, d: int, n: int)
    requires
        0 <= d < tws.len(),
        !tws[d].enabled,
        0 <= n <= tws.len(),
    ensures
        n <= d ==> pick(rem, tws.remove(d), n) == pick(rem, tws, n),
        n > d ==> pick(rem, tws.remove(d), n - 1) == pick_without(pick(rem, tws, n), d),
        pick(rem, tws, n) matches Pick::Found(i, _) ==> 0 <= i < n,
    decreases n,
{
    let tws2 = tws.remove(d);
    if n > 0 {
        lemma_pick_remove(rem, tws, d, n - 1);
        if n - 1 < d {
            assert(tws2[n - 1] == tws[n - 1]);
        } else if n - 1 == d {
        } else {
            assert(tws2[n - 2] == tws[n - 1]);
            pick_chooses_first_ranked(rem, tws, n - 1);
            if let Pick::Found(i, _) = pick(rem, tws, n - 1) {
                if i > d {
                    assert(tws2[i - 1] == tws[i]);
                } else {
                    assert(tws2[i] == tws[i]);
                }
            }
        }
    }
}

proof fn lemma_run_remove(rem: Seq<char>, tws: Seq<TriggerWord>, d: int)
    requires
        0 <= d < tws.len(),
        !tws[d].enabled,
    ensures
        run(rem, tws.remove(d)) == run(rem, tws),
    decreases rem.len(),
{
    let tws2 = tws.remove(d);
    lemma_pick_remove(rem, tws, d, tws.len() as int);
    pick_chooses_first_ranked(rem, tws, tws.len() as int);
    if let Pick::Found(i, _) = pick(rem, tws, tws.len() as int) {
        if i > d {
            assert(tws2[i - 1] == tws[i]);
        } else {
            assert(tws2[i] == tws[i]);
        }
    }
    assert(step(rem, tws2) == step(rem, tws));
    if rem.len() > 0 {
        if let Step::Continue(_, next) = step(rem, tws) {
            if next.len() < rem.len() {
                lemma_run_remove(next, tws, d);
            }
        }
    }
}

/// A disabled trigger has no effect: removing it leaves the output unchanged.
pub proof fn disabled_trigger_has_no_effect(text: Seq<char>, tws: Seq<TriggerWord>, d: int)
    requires
        0 <= d < tws.len(),
        !tws[d].enabled,
    ensures
        trigger_output(text, tws.remove(d)) == trigger_output(text, tws),
{
    let tws2 = tws.remove(d);
    lemma_run_remove(text, tws, d);
    if has_enabled(tws) {
        let i = choose|i: int| 0 <= i < tws.len() && #[trigger] tws[i].enabled;
        if i > d {
            assert(tws2[i - 1] == tws[i]);
        } else {
            assert(tws2[i] == tws[i]);
        }
    }
    if has_enabled(tws2) {
        let i = choose|i: int| 0 <= i < tws2.len() && #[trigger] tws2[i].enabled;
        if i >= d {
            assert(tws2[i] == tws[i + 1]);
        } else {
            assert(tws2[i] == tws[i]);
        }
    }
}

/// The enabled triggers of `tws`, in their order.
pub open spec fn enabled_only(tws: Seq<TriggerWord>) -> Seq<TriggerWord> {
    tws.filter(|t: TriggerWord| t.enabled)
}

proof fn lemma_enabled_only_remove(tws: Seq<TriggerWord>, d: int)
    requires
        0 <= d < tws.len(),
        !tws[d].enabled,
    ensures
        enabled_only(tws.remove(d)) == enabled_only(tws),
    decreases tws.len(),
{
    reveal(Seq::filter);
    let f = |t: TriggerWord| t.enabled;
    let r = tws.remove(d);
    if d == tws.len() - 1 {
        assert(r =~= tws.drop_last());
    } else {
        assert(r.drop_last() =~= tws.drop_last().remove(d));
        assert(r.last() == tws.last());
        lemma_enabled_only_remove(tws.drop_last(), d);
        assert(r.drop_last().filter(f) == tws.drop_last().filter(f));
    }
}

proof fn lemma_enabled_only_all(tws: Seq<TriggerWord>)
    requires
        forall|i: int| 0 <= i < tws.len() ==> #[trigger] tws[i].enabled,
    ensures
        enabled_only(tws) == tws,
    decreases tws.len(),
{
    reveal(Seq::filter);
    if tws.len() > 0 {
        let f = |t: TriggerWord| t.enabled;
        assert(tws.last().enabled);
        lemma_enabled_only_all(tws.drop_last());
        assert(tws.drop_last().filter(f) == tws.drop_last());
        assert(tws.drop_last().push(tws.last()) =~= tws);
    }
}

/// Disabled triggers have no effect: keeping only the enabled triggers, in
/// their order, leaves the output unchanged.
pub proof fn disabled_triggers_have_no_effect(text: Seq<char>, tws: Seq<TriggerWord>)
    ensures
        trigger_output(text, enabled_only(tws)) == trigger_output(text, tws),
    decreases tws.len(),
{
    if exists|d: int| 0 <= d < tws.len() && !(#[trigger] tws[d].enabled) {
        let d = choose|d: int| 0 <= d < tws.len() && !(#[trigger] tws[d].enabled);
        disabled_trigger_has_no_effect(text, tws, d);
        lemma_enabled_only_remove(tws, d);
        disabled_triggers_have_no_effect(text, tws.remove(d));
    } else {
        lemma_enabled_only_all(tws);
    }
}

/// A round leaves a suffix of the text to rewrite. So a round that does not
/// shorten the text leaves it unchanged, and the next round repeats it.
pub proof fn round_leaves_a_suffix(rem: Seq<char>, tws: Seq<TriggerWord>)
    ensures
        step(rem, tws) matches Step::Continue(_, next) ==> next.len() <= rem.len() && next
            == rem.skip(rem.len() - next.len()),
{
    if let Pick::Found(i, j) = pick(rem, tws, tws.len() as int) {
        let t = tws[i];
        let pos = utf8_len(lowercase(rem).take(j));
        let end = pos + utf8_len(t.trigger_phrase@);
        if end < utf8_len(rem) {
            if let Some(k) = boundary_index(rem, end as int) {
                let after = rem.skip(k);
                lemma_trims_shorten(after);
                let p = trim_start_punctuation(after);
                lemma_trims_shorten(p);
                assert(after.skip(after.len() - p.len()) =~= rem.skip(rem.len() - p.len()));
                assert(p.skip(p.len() - trim_start(p).len()) =~= rem.skip(
                    rem.len() - trim_start(p).len(),
                ));
                assert(after.skip(after.len() - trim_start(after).len()) =~= rem.skip(
                    rem.len() - trim_start(after).len(),
                ));
            }
        } else {
            assert(rem.skip(rem.len() as int) =~= Seq::<char>::empty());
        }
    }
}

/// The text emitted before a trigger is the text before its phrase with only
/// its trailing white space removed: when a round applies trigger `i`, whose
/// phrase starts at character `k` of `rem`, it emits the trigger's action,
/// preceded by a text segment exactly when `rem[..k]` is not all white space;
/// that segment is a prefix of `rem` that does not end in white space, and
/// every character between it and the phrase is white space.
pub proof fn text_before_trigger_drops_only_white_space(rem: Seq<char>, tws: Seq<TriggerWord>)
    ensures
        pick(rem, tws, tws.len() as int) matches Pick::Found(i, j) ==> (step(rem, tws) matches Step::Continue(
            produced,
            _,
        ) ==> {
            let k = boundary_index(rem, utf8_len(lowercase(rem).take(j)) as int)->0;
            &&& 0 <= k <= rem.len()
            &&& 1 <= produced.len() <= 2
            &&& produced.last() == action_segment(tws[i])
            &&& produced.len() == 1 ==> forall|m: int| 0 <= m < k ==> is_white_space(#[trigger] rem[m])
            &&& produced.len() == 2 ==> (produced[0] matches SegmentView::Text(b) && {
                &&& 0 < b.len() <= k
                &&& b == rem.take(b.len() as int)
                &&& !is_white_space(b.last())
                &&& forall|m: int| b.len() <= m < k ==> is_white_space(#[trigger] rem[m])
            })
        }),
{
    if let Pick::Found(i, j) = pick(rem, tws, tws.len() as int) {
        let pos = utf8_len(lowercase(rem).take(j));
        if pos == 0 {
            assert(rem.take(0) =~= Seq::<char>::empty());
            lemma_boundary_unique(rem, 0, 0);
        } else if let Some(k) = boundary_index(rem, pos as int) {
            let w = rem.take(k);
            trim_end_drops_only_trailing_white_space(w);
            let b = trim_end(w);
            assert forall|m: int| b.len() <= m < k implies is_white_space(#[trigger] rem[m]) by {
                assert(w[m] == rem[m]);
            }
            if b.len() > 0 {
                assert(b.take(b.len() as int) =~= b);
                assert(rem.take(b.len() as int) =~= w.take(b.len() as int));
                assert(b.last() == w[b.len() - 1]);
            }
        }
    }
}

/// `a` and `b` list the same triggers except that their phrases may differ,
/// as long as they have the same lowercase form and the same length in bytes
/// (for instance, differ in the case of ASCII letters).
pub open spec fn same_up_to_phrase_case(a: Seq<TriggerWord>, b: Seq<TriggerWord>) -> bool {
    &&& a.len() == b.len()
    &&& forall|i: int|
        0 <= i < a.len() ==> {
            &&& #[trigger] a[i].enabled == b[i].enabled
            &&& a[i].action_type == b[i].action_type
            &&& a[i].action_value@ == b[i].action_value@
            &&& lowercase(a[i].trigger_phrase@) == lowercase(b[i].trigger_phrase@)
            &&& utf8_len(a[i].trigger_phrase@) == utf8_len(b[i].trigger_phrase@)
        }
}

proof fn lemma_pick_up_to_case(rem: Seq<char>, a: Seq<TriggerWord>, b: Seq<TriggerWord>, n: int)
    requires
        same_up_to_phrase_case(a, b),
        0 <= n <= a.len(),
    ensures
        pick(rem, a, n) == pick(rem, b, n),
        pick(rem, a, n) matches Pick::Found(i, _) ==> 0 <= i < n,
    decreases n,
{
    if n > 0 {
        lemma_pick_up_to_case(rem, a, b, n - 1);
        assert(a[n - 1].enabled == b[n - 1].enabled);
        if let Pick::Found(i, _) = pick(rem, a, n - 1) {
            assert(a[i].enabled == b[i].enabled);
        }
    }
}

proof fn lemma_run_up_to_case(rem: Seq<char>, a: Seq<TriggerWord>, b: Seq<TriggerWord>)
    requires
        same_up_to_phrase_case(a, b),
    ensures
        run(rem, a) == run(rem, b),
    decreases rem.len(),
{
    lemma_pick_up_to_case(rem, a, b, a.len() as int);
    if let Pick::Found(i, _) = pick(rem, a, a.len() as int) {
        assert(a[i].enabled == b[i].enabled);
    }
    assert(step(rem, a) == step(rem, b));
    if rem.len() > 0 {
        if let Step::Continue(_, next) = step(rem, a) {
            if next.len() < rem.len() {
                lemma_run_up_to_case(next, a, b);
            }
        }
    }
}

/// Phrases are matched regardless of case: changing a phrase into another with
/// the same lowercase form and byte length leaves the output unchanged.
pub proof fn phrase_case_does_not_matter(text: Seq<char>, a: Seq<TriggerWord>, b: Seq<TriggerWord>)
    requires
        same_up_to_phrase_case(a, b),
    ensures
        trigger_output(text, a) == trigger_output(text, b),
{
    lemma_run_up_to_case(text, a, b);
    if has_enabled(a) {
        let i = choose|i: int| 0 <= i < a.len() && #[trigger] a[i].enabled;
        assert(b[i].enabled);
    }
    if has_enabled(b) {
        let i = choose|i: int| 0 <= i < b.len() && #[trigger] b[i].enabled;
        assert(a[i].enabled);
    }
}


/// The text is matched regardless of case: two texts with the same lowercase
/// form get the same trigger chosen at the same position.
pub proof fn text_case_does_not_change_choice(
    text1: Seq<char>,
    text2: Seq<char>,
    tws: Seq<TriggerWord>,
)
    requires
        lowercase(text1) == lowercase(text2),
    ensures
        pick(text1, tws, tws.len() as int) == pick(text2, tws, tws.len() as int),
{
}

} // verus!
