use vstd::prelude::*;
use vstd::string::StringExecFns;
use crate::text::string_push;

verus! {

/// A piece of output: text to type, or the name of a key to press.
#[derive(Debug, Clone, PartialEq)]
pub enum OutputSegment {
    Text(String),
    KeyPress(String),
}

/// The value of an `OutputSegment`: its kind and its characters.
pub enum SegmentView {
    Text(Seq<char>),
    KeyPress(Seq<char>),
}

impl View for OutputSegment {
    type V = SegmentView;

    open spec fn view(&self) -> SegmentView {
        match self {
            OutputSegment::Text(t) => SegmentView::Text(t@),
            OutputSegment::KeyPress(k) => SegmentView::KeyPress(k@),
        }
    }
}

/// The values of a list of segments.
pub open spec fn segments_view(v: Seq<OutputSegment>) -> Seq<SegmentView> {
    v.map_values(|s: OutputSegment| s@)
}

/// Pending text, emitted as one segment unless it is empty.
pub open spec fn flush_text(cur: Seq<char>) -> Seq<SegmentView> {
    if cur.len() > 0 {
        seq![SegmentView::Text(cur)]
    } else {
        seq![]
    }
}

/// Pending text `cur` extended by `t`, with one space between them when `cur` is not empty.
pub open spec fn join_text(cur: Seq<char>, t: Seq<char>) -> Seq<char> {
    if cur.len() > 0 {
        cur + seq![' '] + t
    } else {
        t
    }
}

/// Merging `segs` with text `cur` pending before them.
pub open spec fn merge_from(segs: Seq<SegmentView>, cur: Seq<char>) -> Seq<SegmentView>
    decreases segs.len(),
{
    if segs.len() == 0 {
        flush_text(cur)
    } else {
        match segs[0] {
            SegmentView::Text(t) => merge_from(segs.drop_first(), join_text(cur, t)),
            SegmentView::KeyPress(k) => flush_text(cur) + seq![SegmentView::KeyPress(k)]
                + merge_from(segs.drop_first(), seq![]),
        }
    }
}

/// Each maximal run of text segments joined by single spaces into one segment,
/// dropped when it comes out empty; key presses kept in place.
pub open spec fn merged(segs: Seq<SegmentView>) -> Seq<SegmentView> {
    merge_from(segs, seq![])
}

/// Merge consecutive text segments into single segments.
pub fn merge_text_segments(segments: Vec<OutputSegment>) -> (merged_segments: Vec<OutputSegment>)
    ensures
        segments_view(merged_segments@) == merged(segments_view(segments@)),
{
    let ghost input = segments_view(segments@);
    let mut merged_segments: Vec<OutputSegment> = Vec::new();
    let mut current_text = String::new();
    let mut i: usize = 0;
    assert(input.skip(0) =~= input);
    assert(segments_view(merged_segments@) =~= Seq::<SegmentView>::empty());
    while i < segments.len()
        invariant
            i <= segments.len(),
            input == segments_view(segments@),
            merged(input) == segments_view(merged_segments@) + merge_from(
                input.skip(i as int),
                current_text@,
            ),
        decreases segments.len() - i,
    {
        let ghost before = segments_view(merged_segments@);
        let ghost rest = input.skip(i as int);
        let ghost cur = current_text@;
        assert(rest[0] == segments@[i as int]@);
        assert(rest.drop_first() =~= input.skip(i + 1));
        match &segments[i] {
            OutputSegment::Text(t) => {
                if !current_text.as_str().is_empty() {
                    string_push(&mut current_text, ' ');
                }
                current_text.append(t.as_str());
                assert(current_text@ =~= join_text(cur, t@));
                assert(merge_from(rest, cur) == merge_from(input.skip(i + 1), join_text(cur, t@)));
            },
            OutputSegment::KeyPress(k) => {
                if !current_text.as_str().is_empty() {
                    merged_segments.push(OutputSegment::Text(current_text));
                    current_text = String::new();
                }
                merged_segments.push(OutputSegment::KeyPress(k.clone()));
                assert(segments_view(merged_segments@) =~= before + flush_text(cur) + seq![
                    SegmentView::KeyPress(k@),
                ]);
                assert(merge_from(rest, cur) == flush_text(cur) + seq![SegmentView::KeyPress(k@)]
                    + merge_from(input.skip(i + 1), seq![]));
                assert(current_text@ =~= Seq::<char>::empty());
            },
        }
        i += 1;
    }
    if !current_text.as_str().is_empty() {
        merged_segments.push(OutputSegment::Text(current_text));
    }
    assert(input.skip(i as int) =~= Seq::<SegmentView>::empty());
    merged_segments
}


/// No text segment is empty and no two text segments are adjacent.
pub open spec fn normalized(segs: Seq<SegmentView>) -> bool {
    &&& forall|i: int|
        0 <= i < segs.len() ==> (#[trigger] segs[i] matches SegmentView::Text(t) ==> t.len() > 0)
    &&& forall|i: int|
        0 <= i < segs.len() - 1 ==> !(#[trigger] segs[i] is Text && segs[i + 1] is Text)
}

/// The names of the keys pressed, in order.
pub open spec fn key_presses(segs: Seq<SegmentView>) -> Seq<Seq<char>>
    decreases segs.len(),
{
    if segs.len() == 0 {
        seq![]
    } else {
        match segs[0] {
            SegmentView::KeyPress(k) => seq![k] + key_presses(segs.drop_first()),
            SegmentView::Text(_) => key_presses(segs.drop_first()),
        }
    }
}

proof fn lemma_normalized_concat(a: Seq<SegmentView>, b: Seq<SegmentView>)
    requires
        normalized(a),
        normalized(b),
        a.len() == 0 || b.len() == 0 || !(a.last() is Text && b[0] is Text),
    ensures
        normalized(a + b),
{
    let c = a + b;
    assert forall|i: int| 0 <= i < c.len() - 1 implies !(#[trigger] c[i] is Text && c[i + 1] is Text) by {
        if i < a.len() - 1 {
            assert(c[i] == a[i] && c[i + 1] == a[i + 1]);
        } else if i == a.len() - 1 {
        } else {
            assert(c[i] == b[i - a.len()] && c[i + 1] == b[i + 1 - a.len()]);
        }
    }
    assert forall|i: int| 0 <= i < c.len() implies (#[trigger] c[i] matches SegmentView::Text(
        t,
    ) ==> t.len() > 0) by {
        if i < a.len() {
            assert(c[i] == a[i]);
        } else {
            assert(c[i] == b[i - a.len()]);
        }
    }
}

proof fn lemma_merge_from_normalized(segs: Seq<SegmentView>, cur: Seq<char>)
    ensures
        normalized(merge_from(segs, cur)),
        cur.len() > 0 ==> merge_from(segs, cur).len() > 0 && merge_from(segs, cur)[0] is Text,
    decreases segs.len(),
{
    if segs.len() > 0 {
        match segs[0] {
            SegmentView::Text(t) => {
                lemma_merge_from_normalized(segs.drop_first(), join_text(cur, t));
            },
            SegmentView::KeyPress(k) => {
                let rest = merge_from(segs.drop_first(), seq![]);
                lemma_merge_from_normalized(segs.drop_first(), seq![]);
                let head = flush_text(cur) + seq![SegmentView::KeyPress(k)];
                lemma_normalized_concat(flush_text(cur), seq![SegmentView::KeyPress(k)]);
                lemma_normalized_concat(head, rest);
                assert(merge_from(segs, cur) == head + rest);
                if cur.len() > 0 {
                    assert((head + rest)[0] == SegmentView::Text(cur));
                }
            },
        }
    }
}

/// Merging leaves no empty text segment and no two adjacent text segments.
pub proof fn merge_normalizes(segs: Seq<SegmentView>)
    ensures
        normalized(merged(segs)),
{
    lemma_merge_from_normalized(segs, seq![]);
}

proof fn lemma_merge_from_of_normalized(n: Seq<SegmentView>, cur: Seq<char>)
    requires
        normalized(n),
        cur.len() == 0 || n.len() == 0 || n[0] is KeyPress,
    ensures
        merge_from(n, cur) == flush_text(cur) + n,
    decreases n.len(),
{
    if n.len() == 0 {
        assert(flush_text(cur) + n =~= flush_text(cur));
    } else {
        let rest = n.drop_first();
        assert forall|i: int| 0 <= i < rest.len() - 1 implies !(#[trigger] rest[i] is Text
            && rest[i + 1] is Text) by {
            assert(rest[i] == n[i + 1] && rest[i + 1] == n[i + 2]);
        }
        assert forall|i: int| 0 <= i < rest.len() implies (#[trigger] rest[i] matches SegmentView::Text(
            t,
        ) ==> t.len() > 0) by {
            assert(rest[i] == n[i + 1]);
        }
        match n[0] {
            SegmentView::Text(t) => {
                assert(n[0] is Text);
                if rest.len() > 0 {
                    assert(rest[0] == n[1]);
                }
                lemma_merge_from_of_normalized(rest, t);
                assert(flush_text(t) + rest =~= n);
                assert(flush_text(cur) + n =~= n);
            },
            SegmentView::KeyPress(k) => {
                lemma_merge_from_of_normalized(rest, seq![]);
                assert(flush_text(Seq::<char>::empty()) + rest =~= rest);
                assert(seq![SegmentView::KeyPress(k)] + rest =~= n);
                assert(flush_text(cur) + seq![SegmentView::KeyPress(k)] + rest =~= flush_text(cur)
                    + n);
            },
        }
    }
}

/// Merging is idempotent: merged output is left as it is by a second merge.
pub proof fn merge_idempotent(segs: Seq<SegmentView>)
    ensures
        merged(merged(segs)) == merged(segs),
{
    merge_normalizes(segs);
    lemma_merge_from_of_normalized(merged(segs), seq![]);
    assert(flush_text(Seq::<char>::empty()) + merged(segs) =~= merged(segs));
}

pub proof fn lemma_key_presses_concat(a: Seq<SegmentView>, b: Seq<SegmentView>)
    ensures
        key_presses(a + b) == key_presses(a) + key_presses(b),
    decreases a.len(),
{
    if a.len() == 0 {
        assert(a + b =~= b);
    } else {
        lemma_key_presses_concat(a.drop_first(), b);
        assert((a + b).drop_first() =~= a.drop_first() + b);
        assert((a + b)[0] == a[0]);
        match a[0] {
            SegmentView::KeyPress(k) => {
                assert(seq![k] + (key_presses(a.drop_first()) + key_presses(b)) =~= seq![k]
                    + key_presses(a.drop_first()) + key_presses(b));
            },
            SegmentView::Text(_) => {},
        }
    }
}

pub proof fn lemma_key_presses_flush(cur: Seq<char>)
    ensures
        key_presses(flush_text(cur)) == Seq::<Seq<char>>::empty(),
{
    if cur.len() > 0 {
        assert(flush_text(cur).drop_first() =~= Seq::<SegmentView>::empty());
        assert(key_presses(Seq::<SegmentView>::empty()) =~= Seq::<Seq<char>>::empty());
    }
}

proof fn lemma_merge_from_key_presses(segs: Seq<SegmentView>, cur: Seq<char>)
    ensures
        key_presses(merge_from(segs, cur)) == key_presses(segs),
    decreases segs.len(),
{
    lemma_key_presses_flush(cur);
    if segs.len() > 0 {
        match segs[0] {
            SegmentView::Text(t) => {
                lemma_merge_from_key_presses(segs.drop_first(), join_text(cur, t));
            },
            SegmentView::KeyPress(k) => {
                let kp = seq![SegmentView::KeyPress(k)];
                lemma_merge_from_key_presses(segs.drop_first(), seq![]);
                lemma_key_presses_concat(flush_text(cur), kp);
                lemma_key_presses_concat(flush_text(cur) + kp, merge_from(segs.drop_first(), seq![]));
                assert(kp.drop_first() =~= Seq::<SegmentView>::empty());
                assert(key_presses(Seq::<SegmentView>::empty()) =~= Seq::<Seq<char>>::empty());
                assert(key_presses(kp) =~= seq![k]);
            },
        }
    }
}

/// Merging keeps every key press, in order.
pub proof fn merge_keeps_key_presses(segs: Seq<SegmentView>)
    ensures
        key_presses(merged(segs)) == key_presses(segs),
{
    lemma_merge_from_key_presses(segs, seq![]);
}

/// Without key presses, merging leaves at most one segment, a text segment.
pub proof fn merge_text_only(segs: Seq<SegmentView>)
    requires
        key_presses(segs).len() == 0,
    ensures
        merged(segs).len() <= 1,
        forall|i: int| 0 <= i < merged(segs).len() ==> #[trigger] merged(segs)[i] is Text,
{
    merge_normalizes(segs);
    merge_keeps_key_presses(segs);
    lemma_no_key_presses_all_text(merged(segs));
    let m = merged(segs);
    if m.len() > 1 {
        assert(m[0] is Text && m[1] is Text);
    }
}

proof fn lemma_no_key_presses_all_text(segs: Seq<SegmentView>)
    requires
        key_presses(segs).len() == 0,
    ensures
        forall|i: int| 0 <= i < segs.len() ==> #[trigger] segs[i] is Text,
    decreases segs.len(),
{
    if segs.len() > 0 {
        match segs[0] {
            SegmentView::KeyPress(k) => {
                assert((seq![k] + key_presses(segs.drop_first())).len() > 0);
            },
            SegmentView::Text(_) => {
                lemma_no_key_presses_all_text(segs.drop_first());
                assert forall|i: int| 0 <= i < segs.len() implies #[trigger] segs[i] is Text by {
                    if i > 0 {
                        assert(segs[i] == segs.drop_first()[i - 1]);
                    }
                }
            },
        }
    }
}

} // verus!
