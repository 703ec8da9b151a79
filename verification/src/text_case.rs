//! Rewriting two texts that differ only in case gives outputs that differ only
//! in case.
use vstd::prelude::*;
use crate::text::{
    boundary_index, is_trailing_punctuation, is_white_space, lemma_boundary_unique,
    lemma_utf8_len_take, lowercase, trim_end, trim_start,
    trim_start_punctuation, utf8_len, utf8_width,
};
use crate::segments::{flush_text, join_text, merge_from, SegmentView};
use crate::process::{
    action_segment, has_enabled, pick, round_leaves_a_suffix, run, step, trigger_output, Pick, Step,
};
use crate::triggers::TriggerWord;

verus! {

/// `a` and `b` are one character up to case, as far as the rewriting can
/// tell: the same lowercase form, the same UTF-8 width, and the same answer to
/// whether it is white space or trailing punctuation.
pub open spec fn alike(a: char, b: char) -> bool {
    &&& lowercase(seq![a]) == lowercase(seq![b])
    &&& utf8_width(a) == utf8_width(b)
    &&& is_white_space(a) == is_white_space(b)
    &&& is_trailing_punctuation(a) == is_trailing_punctuation(b)
}

/// `x` and `y` are the same text up to case, character by character.
pub open spec fn similar_text(x: Seq<char>, y: Seq<char>) -> bool {
    &&& x.len() == y.len()
    &&& forall|i: int| #![trigger x[i], y[i]] 0 <= i < x.len() ==> alike(x[i], y[i])
}

/// `a` and `b` are the same segment up to the case of its text: texts that are
/// similar, or the same key.
pub open spec fn segment_alike(a: SegmentView, b: SegmentView) -> bool {
    match (a, b) {
        (SegmentView::Text(x), SegmentView::Text(y)) => similar_text(x, y),
        (SegmentView::KeyPress(x), SegmentView::KeyPress(y)) => x == y,
        _ => false,
    }
}

/// `a` and `b` are the same segments up to the case of their texts.
pub open spec fn same_shape(a: Seq<SegmentView>, b: Seq<SegmentView>) -> bool {
    &&& a.len() == b.len()
    &&& forall|i: int| #![trigger a[i], b[i]] 0 <= i < a.len() ==> segment_alike(a[i], b[i])
}

proof fn lemma_similar_take_skip(x: Seq<char>, y: Seq<char>, k: int)
    requires
        similar_text(x, y),
        0 <= k <= x.len(),
    ensures
        similar_text(x.take(k), y.take(k)),
        similar_text(x.skip(k), y.skip(k)),
{
    assert forall|i: int| 0 <= i < k implies alike(x.take(k)[i], y.take(k)[i]) by {
        assert(x.take(k)[i] == x[i] && y.take(k)[i] == y[i]);
    }
    assert forall|i: int| 0 <= i < x.len() - k implies alike(x.skip(k)[i], y.skip(k)[i]) by {
        assert(x.skip(k)[i] == x[i + k] && y.skip(k)[i] == y[i + k]);
    }
}

proof fn lemma_similar_utf8_len(x: Seq<char>, y: Seq<char>, k: int)
    requires
        similar_text(x, y),
        0 <= k <= x.len(),
    ensures
        utf8_len(x.take(k)) == utf8_len(y.take(k)),
    decreases k,
{
    if k > 0 {
        lemma_similar_utf8_len(x, y, k - 1);
        lemma_utf8_len_take(x, k - 1);
        lemma_utf8_len_take(y, k - 1);
        assert(alike(x[k - 1], y[k - 1]));
    }
}

proof fn lemma_similar_boundary(x: Seq<char>, y: Seq<char>, b: int)
    requires
        similar_text(x, y),
    ensures
        boundary_index(x, b) == boundary_index(y, b),
        utf8_len(x) == utf8_len(y),
{
    lemma_similar_utf8_len(x, y, x.len() as int);
    assert(x.take(x.len() as int) =~= x);
    assert(y.take(y.len() as int) =~= y);
    if let Some(k) = boundary_index(x, b) {
        lemma_similar_utf8_len(x, y, k);
        lemma_boundary_unique(y, b, k);
    } else if let Some(k) = boundary_index(y, b) {
        lemma_similar_utf8_len(x, y, k);
        lemma_boundary_unique(x, b, k);
    }
}

proof fn lemma_similar_trims(x: Seq<char>, y: Seq<char>)
    requires
        similar_text(x, y),
    ensures
        similar_text(trim_end(x), trim_end(y)),
        similar_text(trim_start(x), trim_start(y)),
        similar_text(trim_start_punctuation(x), trim_start_punctuation(y)),
    decreases x.len(),
{
    if x.len() > 0 {
        assert(alike(x[0], y[0]));
        assert(alike(x[x.len() - 1], y[y.len() - 1]));
        lemma_similar_take_skip(x, y, 1);
        lemma_similar_take_skip(x, y, x.len() - 1);
        assert(x.skip(1) =~= x.drop_first() && y.skip(1) =~= y.drop_first());
        assert(x.take(x.len() - 1) =~= x.drop_last() && y.take(y.len() - 1) =~= y.drop_last());
        lemma_similar_trims(x.drop_first(), y.drop_first());
        lemma_similar_trims(x.drop_last(), y.drop_last());
    }
}

proof fn lemma_similar_concat(x1: Seq<char>, x2: Seq<char>, y1: Seq<char>, y2: Seq<char>)
    requires
        similar_text(x1, y1),
        similar_text(x2, y2),
    ensures
        similar_text(x1 + x2, y1 + y2),
{
    assert forall|i: int| 0 <= i < x1.len() + x2.len() implies alike((x1 + x2)[i], (y1 + y2)[i]) by {
        if i < x1.len() {
            assert(alike(x1[i], y1[i]));
        } else {
            assert(alike(x2[i - x1.len()], y2[i - x1.len()]));
        }
    }
}

proof fn lemma_same_shape_concat(
    a1: Seq<SegmentView>,
    a2: Seq<SegmentView>,
    b1: Seq<SegmentView>,
    b2: Seq<SegmentView>,
)
    requires
        same_shape(a1, b1),
        same_shape(a2, b2),
    ensures
        same_shape(a1 + a2, b1 + b2),
{
    assert forall|i: int| 0 <= i < a1.len() + a2.len() implies segment_alike(
        (a1 + a2)[i],
        (b1 + b2)[i],
    ) by {
        if i < a1.len() {
            assert(segment_alike(a1[i], b1[i]));
        } else {
            assert(segment_alike(a2[i - a1.len()], b2[i - a1.len()]));
        }
    }
}

proof fn lemma_flush_similar(x: Seq<char>, y: Seq<char>)
    requires
        similar_text(x, y),
    ensures
        same_shape(flush_text(x), flush_text(y)),
{
    if x.len() > 0 {
        assert(segment_alike(flush_text(x)[0], flush_text(y)[0]));
    }
}

proof fn lemma_same_shape_drop_first(a: Seq<SegmentView>, b: Seq<SegmentView>)
    requires
        same_shape(a, b),
        a.len() > 0,
    ensures
        same_shape(a.drop_first(), b.drop_first()),
{
    assert forall|i: int| 0 <= i < a.len() - 1 implies segment_alike(
        a.drop_first()[i],
        b.drop_first()[i],
    ) by {
        assert(segment_alike(a[i + 1], b[i + 1]));
    }
}

proof fn lemma_segment_alike_refl(s: SegmentView)
    ensures
        same_shape(seq![s], seq![s]),
{
    assert(segment_alike(seq![s][0], seq![s][0]));
}

proof fn lemma_merge_similar(a: Seq<SegmentView>, b: Seq<SegmentView>, c1: Seq<char>, c2: Seq<char>)
    requires
        same_shape(a, b),
        similar_text(c1, c2),
    ensures
        same_shape(merge_from(a, c1), merge_from(b, c2)),
    decreases a.len(),
{
    if a.len() == 0 {
        lemma_flush_similar(c1, c2);
    } else {
        assert(segment_alike(a[0], b[0]));
        lemma_same_shape_drop_first(a, b);
        match (a[0], b[0]) {
            (SegmentView::Text(t1), SegmentView::Text(t2)) => {
                if c1.len() > 0 {
                    assert(similar_text(seq![' '], seq![' ']));
                    lemma_similar_concat(c1, seq![' '], c2, seq![' ']);
                    lemma_similar_concat(c1 + seq![' '], t1, c2 + seq![' '], t2);
                }
                lemma_merge_similar(a.drop_first(), b.drop_first(), join_text(c1, t1), join_text(c2, t2));
            },
            (SegmentView::KeyPress(k), _) => {
                lemma_flush_similar(c1, c2);
                lemma_segment_alike_refl(SegmentView::KeyPress(k));
                lemma_merge_similar(a.drop_first(), b.drop_first(), seq![], seq![]);
                lemma_same_shape_concat(flush_text(c1), seq![SegmentView::KeyPress(k)], flush_text(c2), seq![SegmentView::KeyPress(k)]);
                lemma_same_shape_concat(
                    flush_text(c1) + seq![SegmentView::KeyPress(k)],
                    merge_from(a.drop_first(), seq![]),
                    flush_text(c2) + seq![SegmentView::KeyPress(k)],
                    merge_from(b.drop_first(), seq![]),
                );
            },
            _ => {},
        }
    }
}

/// `t1` and `t2` are the same text up to case: similar character by character,
/// and each suffix of one has the lowercase form of the same suffix of the other.
pub open spec fn case_variants(t1: Seq<char>, t2: Seq<char>) -> bool {
    &&& similar_text(t1, t2)
    &&& forall|k: int|
        #![trigger t1.skip(k)]
        0 <= k <= t1.len() ==> lowercase(t1.skip(k)) == lowercase(t2.skip(k))
}

proof fn lemma_variants_skip(t1: Seq<char>, t2: Seq<char>, m: int)
    requires
        case_variants(t1, t2),
        0 <= m <= t1.len(),
    ensures
        case_variants(t1.skip(m), t2.skip(m)),
{
    lemma_similar_take_skip(t1, t2, m);
    assert forall|k: int| 0 <= k <= t1.len() - m implies lowercase(#[trigger] t1.skip(m).skip(k))
        == lowercase(t2.skip(m).skip(k)) by {
        assert(t1.skip(m).skip(k) =~= t1.skip(m + k));
        assert(t2.skip(m).skip(k) =~= t2.skip(m + k));
    }
}

/// `a` and `b` are the same round up to case.
spec fn steps_alike(a: Step, b: Step) -> bool {
    match (a, b) {
        (Step::Panic, Step::Panic) => true,
        (Step::Finish(s1), Step::Finish(s2)) => same_shape(s1, s2),
        (Step::Continue(s1, n1), Step::Continue(s2, n2)) => same_shape(s1, s2) && case_variants(n1, n2),
        _ => false,
    }
}

proof fn lemma_step_alike(r1: Seq<char>, r2: Seq<char>, tws: Seq<TriggerWord>)
    requires
        case_variants(r1, r2),
    ensures
        steps_alike(step(r1, tws), step(r2, tws)),
{
    assert(r1.skip(0) =~= r1);
    assert(r2.skip(0) =~= r2);
    assert(lowercase(r1) == lowercase(r2));
    match pick(r1, tws, tws.len() as int) {
        Pick::Nothing => {
            assert(segment_alike(seq![SegmentView::Text(r1)][0], seq![SegmentView::Text(r2)][0]));
        },
        Pick::Found(i, j) => {
            let t = tws[i];
            let low = lowercase(r1);
            let pos = utf8_len(low.take(j));
            let end = pos + utf8_len(t.trigger_phrase@);
            lemma_similar_boundary(r1, r2, pos as int);
            lemma_similar_boundary(r1, r2, end as int);
            if !(pos > 0 && boundary_index(r1, pos as int) is None) {
                let before1 = if pos > 0 {
                    flush_text(trim_end(r1.take(boundary_index(r1, pos as int)->0)))
                } else {
                    seq![]
                };
                let before2 = if pos > 0 {
                    flush_text(trim_end(r2.take(boundary_index(r2, pos as int)->0)))
                } else {
                    seq![]
                };
                if pos > 0 {
                    let kp = boundary_index(r1, pos as int)->0;
                    lemma_similar_take_skip(r1, r2, kp);
                    lemma_similar_trims(r1.take(kp), r2.take(kp));
                    lemma_flush_similar(trim_end(r1.take(kp)), trim_end(r2.take(kp)));
                }
                lemma_segment_alike_refl(action_segment(t));
                lemma_same_shape_concat(before1, seq![action_segment(t)], before2, seq![action_segment(t)]);
                if end < utf8_len(r1) {
                    if let Some(k) = boundary_index(r1, end as int) {
                        lemma_similar_take_skip(r1, r2, k);
                        lemma_similar_trims(r1.skip(k), r2.skip(k));
                        let p1 = trim_start_punctuation(r1.skip(k));
                        let p2 = trim_start_punctuation(r2.skip(k));
                        lemma_similar_trims(p1, p2);
                        round_leaves_a_suffix(r1, tws);
                        round_leaves_a_suffix(r2, tws);
                        if let Step::Continue(_, n1) = step(r1, tws) {
                            if let Step::Continue(_, n2) = step(r2, tws) {
                                lemma_variants_skip(r1, r2, r1.len() - n1.len());
                            }
                        }
                    }
                } else {
                    assert(case_variants(Seq::<char>::empty(), Seq::<char>::empty()));
                }
            }
        },
    }
}

proof fn lemma_run_alike(r1: Seq<char>, r2: Seq<char>, tws: Seq<TriggerWord>)
    requires
        case_variants(r1, r2),
    ensures
        run(r1, tws) is Some <==> run(r2, tws) is Some,
        run(r1, tws) is Some ==> same_shape(run(r1, tws)->0, run(r2, tws)->0),
    decreases r1.len(),
{
    if r1.len() > 0 {
        lemma_step_alike(r1, r2, tws);
        if let Step::Continue(s1, n1) = step(r1, tws) {
            if let Step::Continue(s2, n2) = step(r2, tws) {
                if n1.len() < r1.len() {
                    lemma_run_alike(n1, n2, tws);
                    if run(n1, tws) is Some {
                        lemma_same_shape_concat(s1, run(n1, tws)->0, s2, run(n2, tws)->0);
                    }
                }
            }
        }
    } else {
        assert(same_shape(Seq::<SegmentView>::empty(), Seq::<SegmentView>::empty()));
    }
}

/// Matching ignores the case of the text: two texts that are the same up to
/// case are both rewritten or both refused, and their outputs are the same
/// segments (the same key presses, and texts the same up to case).
pub proof fn text_case_does_not_matter(t1: Seq<char>, t2: Seq<char>, tws: Seq<TriggerWord>)
    requires
        case_variants(t1, t2),
    ensures
        trigger_output(t1, tws) is Some <==> trigger_output(t2, tws) is Some,
        trigger_output(t1, tws) is Some ==> same_shape(
            trigger_output(t1, tws)->0,
            trigger_output(t2, tws)->0,
        ),
{
    if !has_enabled(tws) {
        assert(segment_alike(seq![SegmentView::Text(t1)][0], seq![SegmentView::Text(t2)][0]));
    } else {
        lemma_run_alike(t1, t2, tws);
        if run(t1, tws) is Some {
            assert(similar_text(Seq::<char>::empty(), Seq::<char>::empty()));
            lemma_merge_similar(run(t1, tws)->0, run(t2, tws)->0, seq![], seq![]);
        }
    }
}

} // verus!
