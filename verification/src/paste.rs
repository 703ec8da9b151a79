use vstd::prelude::*;
use crate::text::string_push;
use crate::segments::{segments_view, OutputSegment, SegmentView};
use crate::triggers::TriggerWord;
use crate::process::{process_trigger_words_checked, trigger_output};
use crate::output::{key_combo_spec, InputTool, PasteMethod};

verus! {

/// What delivering one segment does.
#[derive(Debug, Clone, PartialEq)]
pub enum SegmentAction {
    /// Paste this text with the configured method.
    Paste(String),
    /// Press the key with this name.
    PressKey(String),
    /// Nothing (an empty text segment).
    Skip,
}

/// The action for one segment: non-empty text is pasted, a key is pressed,
/// empty text is skipped.
pub fn segment_action(segment: &OutputSegment) -> (r: SegmentAction)
    ensures
        match segment@ {
            SegmentView::Text(t) => if t.len() > 0 {
                r matches SegmentAction::Paste(p) && p@ == t
            } else {
                r is Skip
            },
            SegmentView::KeyPress(k) => r matches SegmentAction::PressKey(p) && p@ == k,
        },
{
    match segment {
        OutputSegment::Text(t) => {
            if t.as_str().is_empty() {
                SegmentAction::Skip
            } else {
                SegmentAction::Paste(t.clone())
            }
        },
        OutputSegment::KeyPress(k) => SegmentAction::PressKey(k.clone()),
    }
}

/// How a text segment is delivered.
#[derive(Debug, Clone, Copy, PartialEq, Eq, Structural)]
pub enum PasteRoute {
    /// Not at all.
    Skip,
    /// Typed key by key.
    Direct,
    /// Through the clipboard and a paste key combination.
    Clipboard,
}

/// The route of a paste method.
pub open spec fn route_of(method: PasteMethod) -> PasteRoute {
    match method {
        PasteMethod::NoPaste => PasteRoute::Skip,
        PasteMethod::Direct => PasteRoute::Direct,
        _ => PasteRoute::Clipboard,
    }
}

/// The route by which a segment is delivered with `method`.
pub fn paste_route(method: PasteMethod) -> (r: PasteRoute)
    ensures
        r == route_of(method),
{
    match method {
        PasteMethod::NoPaste => PasteRoute::Skip,
        PasteMethod::Direct => PasteRoute::Direct,
        PasteMethod::CtrlV | PasteMethod::CtrlShiftV | PasteMethod::ShiftInsert => PasteRoute::Clipboard,
    }
}

/// Only `NoPaste` skips delivery and only `Direct` types the text; every
/// other method (Ctrl+V, Ctrl+Shift+V, Shift+Insert) goes through the
/// clipboard, and those are exactly the methods that have a paste key
/// combination.
pub proof fn paste_routes(method: PasteMethod)
    ensures
        route_of(method) == PasteRoute::Skip <==> method == PasteMethod::NoPaste,
        route_of(method) == PasteRoute::Direct <==> method == PasteMethod::Direct,
        route_of(method) == PasteRoute::Clipboard <==> key_combo_spec(InputTool::Xdotool, method) is Some,
        route_of(PasteMethod::CtrlV) == PasteRoute::Clipboard,
        route_of(PasteMethod::CtrlShiftV) == PasteRoute::Clipboard,
        route_of(PasteMethod::ShiftInsert) == PasteRoute::Clipboard,
{
}

/// `text` with a space appended when `append` is set.
pub open spec fn trailing_spaced(text: Seq<char>, append: bool) -> Seq<char> {
    if append {
        text.push(' ')
    } else {
        text
    }
}

/// Append a trailing space to `text` if the setting asks for it.
pub fn with_trailing_space(text: String, append: bool) -> (r: String)
    ensures
        r@ == trailing_spaced(text@, append),
{
    let mut text = text;
    if append {
        string_push(&mut text, ' ');
    }
    text
}

/// The index of the last text segment, if any.
pub open spec fn last_text_index(segs: Seq<SegmentView>) -> Option<int>
    decreases segs.len(),
{
    if segs.len() == 0 {
        None
    } else if segs.last() is Text {
        Some(segs.len() - 1)
    } else {
        last_text_index(segs.drop_last())
    }
}

/// `segs` with a space appended to its last text segment.
pub open spec fn space_after_last_text(segs: Seq<SegmentView>) -> Seq<SegmentView> {
    match last_text_index(segs) {
        Some(i) => segs.update(i, SegmentView::Text(segs[i]->Text_0.push(' '))),
        None => segs,
    }
}

proof fn lemma_last_text_index(segs: Seq<SegmentView>, i: int)
    requires
        0 <= i < segs.len(),
        segs[i] is Text,
        forall|q: int| i < q < segs.len() ==> !(#[trigger] segs[q] is Text),
    ensures
        last_text_index(segs) == Some(i),
    decreases segs.len(),
{
    if i < segs.len() - 1 {
        assert(!(segs[segs.len() - 1] is Text));
        lemma_last_text_index(segs.drop_last(), i);
    }
}

proof fn lemma_no_text_index(segs: Seq<SegmentView>)
    requires
        forall|q: int| 0 <= q < segs.len() ==> !(#[trigger] segs[q] is Text),
    ensures
        last_text_index(segs) is None,
    decreases segs.len(),
{
    if segs.len() > 0 {
        assert(!(segs[segs.len() - 1] is Text));
        lemma_no_text_index(segs.drop_last());
    }
}

/// The trailing space goes to the last text segment and nowhere else: the
/// segments keep their number and kinds, the last text segment gets one space
/// at its end, every other segment is unchanged, and segments without text
/// are left as they are.
pub proof fn trailing_space_goes_to_last_text(segs: Seq<SegmentView>)
    ensures
        space_after_last_text(segs).len() == segs.len(),
        (forall|q: int| 0 <= q < segs.len() ==> !(#[trigger] segs[q] is Text)) ==> space_after_last_text(
            segs,
        ) == segs,
        forall|i: int|
            0 <= i < segs.len() && (#[trigger] segs[i] matches SegmentView::Text(t)) && (forall|q: int|
                i < q < segs.len() ==> !(#[trigger] segs[q] is Text)) ==> {
                &&& space_after_last_text(segs)[i] == SegmentView::Text(segs[i]->Text_0 + seq![' '])
                &&& forall|q: int|
                    0 <= q < segs.len() && q != i ==> #[trigger] space_after_last_text(segs)[q]
                        == segs[q]
            },
{
    if forall|q: int| 0 <= q < segs.len() ==> !(#[trigger] segs[q] is Text) {
        lemma_no_text_index(segs);
    }
    assert forall|i: int|
        0 <= i < segs.len() && (#[trigger] segs[i] matches SegmentView::Text(t)) && (forall|q: int|
            i < q < segs.len() ==> !(#[trigger] segs[q] is Text)) implies {
        &&& space_after_last_text(segs)[i] == SegmentView::Text(segs[i]->Text_0 + seq![' '])
        &&& forall|q: int|
            0 <= q < segs.len() && q != i ==> #[trigger] space_after_last_text(segs)[q] == segs[q]
    } by {
        lemma_last_text_index(segs, i);
        assert(segs[i]->Text_0.push(' ') =~= segs[i]->Text_0 + seq![' ']);
    }
    if let Some(i) = last_text_index(segs) {
        lemma_last_text_index_is_text(segs);
    }
}

proof fn lemma_last_text_index_is_text(segs: Seq<SegmentView>)
    ensures
        last_text_index(segs) matches Some(i) ==> 0 <= i < segs.len() && segs[i] is Text,
    decreases segs.len(),
{
    if segs.len() > 0 && !(segs.last() is Text) {
        lemma_last_text_index_is_text(segs.drop_last());
    }
}

/// Append a trailing space to the last text segment, if there is one.
pub fn append_space_to_last_text(segments: &mut Vec<OutputSegment>)
    ensures
        segments_view(final(segments)@) == space_after_last_text(segments_view(old(segments)@)),
{
    let ghost segs = segments_view(segments@);
    let mut i = segments.len();
    while i > 0
        invariant
            i <= segments@.len(),
            segs == segments_view(segments@),
            segs == segments_view(old(segments)@),
            forall|q: int| i <= q < segs.len() ==> !(#[trigger] segs[q] is Text),
        decreases i,
    {
        let new_text = match &segments[i - 1] {
            OutputSegment::Text(t) => {
                let mut t2 = t.clone();
                string_push(&mut t2, ' ');
                Some(t2)
            },
            OutputSegment::KeyPress(_) => None,
        };
        match new_text {
            Some(t2) => {
                proof {
                    assert(segs[i - 1] == segments@[i - 1]@);
                    lemma_last_text_index(segs, i - 1);
                }
                segments.set(i - 1, OutputSegment::Text(t2));
                assert(segments_view(segments@) =~= space_after_last_text(segs));
                return ;
            },
            None => {
                assert(segs[i - 1] == segments@[i - 1]@);
            },
        }
        i -= 1;
    }
    proof {
        lemma_no_text_index(segs);
    }
}

/// What `paste` delivers.
#[derive(Debug, Clone, PartialEq)]
pub struct PastePlan {
    /// The text to deliver, and to leave on the clipboard when so configured.
    pub text: String,
    /// The segments into which the trigger words rewrite it, when they are used;
    /// `None` when the text is pasted whole.
    pub segments: Option<Vec<OutputSegment>>,
}

/// What pasting `text` delivers: the text, with a trailing space if the
/// setting asks for it, rewritten into segments by the trigger words when they
/// are enabled and there are some, else pasted whole. `None` where the
/// rewriting panics or does not terminate.
pub fn plan_paste(
    text: String,
    append_trailing_space: bool,
    trigger_words_enabled: bool,
    trigger_words: &[TriggerWord],
) -> (r: Option<PastePlan>)
    ensures
        ({
            let t = trailing_spaced(text@, append_trailing_space);
            if trigger_words_enabled && trigger_words@.len() > 0 {
                match trigger_output(t, trigger_words@) {
                    Some(s) => r matches Some(p) && p.text@ == t && (p.segments matches Some(v)
                        && segments_view(v@) == s),
                    None => r is None,
                }
            } else {
                r matches Some(p) && p.text@ == t && p.segments is None
            }
        }),
{
    let text = with_trailing_space(text, append_trailing_space);
    if trigger_words_enabled && trigger_words.len() > 0 {
        match process_trigger_words_checked(text.as_str(), trigger_words) {
            Some(segments) => Some(PastePlan { text, segments: Some(segments) }),
            None => None,
        }
    } else {
        Some(PastePlan { text, segments: None })
    }
}

} // verus!
