use handy_clipboard::process::process_trigger_words;
use handy_clipboard::segments::OutputSegment;
use handy_clipboard::triggers::{find_word_boundary_match, TriggerActionType, TriggerWord};

fn make_trigger(phrase: &str, action_type: TriggerActionType, action_value: &str) -> TriggerWord {
    TriggerWord {
        id: format!("test_{}", phrase),
        trigger_phrase: phrase.to_string(),
        action_type,
        action_value: action_value.to_string(),
        enabled: true,
        is_builtin: false,
    }
}

#[test]
fn test_find_word_boundary_match_basic() {
    assert_eq!(find_word_boundary_match("hello enter world", "enter"), Some(6));
    assert_eq!(find_word_boundary_match("enter world", "enter"), Some(0));
    assert_eq!(find_word_boundary_match("hello enter", "enter"), Some(6));
}

#[test]
fn test_find_word_boundary_match_no_partial() {
    // Should NOT match partial words
    assert_eq!(find_word_boundary_match("entering the room", "enter"), None);
    assert_eq!(find_word_boundary_match("center of attention", "enter"), None);
    assert_eq!(find_word_boundary_match("reenter the building", "enter"), None);
}

#[test]
fn test_find_word_boundary_match_with_punctuation() {
    assert_eq!(find_word_boundary_match("hello enter, world", "enter"), Some(6));
    assert_eq!(find_word_boundary_match("hello enter. world", "enter"), Some(6));
    assert_eq!(find_word_boundary_match("enter!", "enter"), Some(0));
}

#[test]
fn test_process_trigger_words_single_keypress() {
    let triggers = vec![
        make_trigger("enter", TriggerActionType::KeyPress, "enter"),
    ];

    let segments = process_trigger_words("hello enter world", &triggers);
    assert_eq!(segments.len(), 3);

    match &segments[0] {
        OutputSegment::Text(t) => assert_eq!(t, "hello"),
        _ => panic!("Expected text segment"),
    }
    match &segments[1] {
        OutputSegment::KeyPress(k) => assert_eq!(k, "enter"),
        _ => panic!("Expected keypress segment"),
    }
    match &segments[2] {
        OutputSegment::Text(t) => assert_eq!(t, "world"),
        _ => panic!("Expected text segment"),
    }
}

#[test]
fn test_process_trigger_words_text_replacement() {
    let triggers = vec![
        make_trigger("period", TriggerActionType::TextReplacement, "."),
    ];

    let segments = process_trigger_words("hello period", &triggers);
    assert_eq!(segments.len(), 1);

    match &segments[0] {
        OutputSegment::Text(t) => assert_eq!(t, "hello ."),
        _ => panic!("Expected merged text segment"),
    }
}

#[test]
fn test_process_trigger_words_punctuation_after_keypress() {
    let triggers = vec![
        make_trigger("enter", TriggerActionType::KeyPress, "enter"),
    ];

    // Punctuation after keypress trigger should be ignored
    let segments = process_trigger_words("hello enter. world", &triggers);
    assert_eq!(segments.len(), 3);

    match &segments[0] {
        OutputSegment::Text(t) => assert_eq!(t, "hello"),
        _ => panic!("Expected text segment"),
    }
    match &segments[1] {
        OutputSegment::KeyPress(k) => assert_eq!(k, "enter"),
        _ => panic!("Expected keypress segment"),
    }
    match &segments[2] {
        OutputSegment::Text(t) => assert_eq!(t, "world"),
        _ => panic!("Expected text segment"),
    }
}

#[test]
fn test_process_trigger_words_at_end() {
    let triggers = vec![
        make_trigger("enter", TriggerActionType::KeyPress, "enter"),
    ];

    let segments = process_trigger_words("submit enter", &triggers);
    assert_eq!(segments.len(), 2);

    match &segments[0] {
        OutputSegment::Text(t) => assert_eq!(t, "submit"),
        _ => panic!("Expected text segment"),
    }
    match &segments[1] {
        OutputSegment::KeyPress(k) => assert_eq!(k, "enter"),
        _ => panic!("Expected keypress segment"),
    }
}

#[test]
fn test_process_trigger_words_disabled_trigger() {
    let mut trigger = make_trigger("enter", TriggerActionType::KeyPress, "enter");
    trigger.enabled = false;
    let triggers = vec![trigger];

    let segments = process_trigger_words("hello enter world", &triggers);
    assert_eq!(segments.len(), 1);

    match &segments[0] {
        OutputSegment::Text(t) => assert_eq!(t, "hello enter world"),
        _ => panic!("Expected text segment"),
    }
}

#[test]
fn test_process_trigger_words_case_insensitive() {
    let triggers = vec![
        make_trigger("enter", TriggerActionType::KeyPress, "enter"),
    ];

    let segments = process_trigger_words("hello ENTER world", &triggers);
    assert_eq!(segments.len(), 3);

    match &segments[1] {
        OutputSegment::KeyPress(k) => assert_eq!(k, "enter"),
        _ => panic!("Expected keypress segment"),
    }
}

#[test]
fn test_process_trigger_words_same_trigger_multiple_times() {
    let triggers = vec![
        make_trigger("enter", TriggerActionType::KeyPress, "enter"),
    ];

    let segments = process_trigger_words("first paragraph enter second paragraph enter third paragraph", &triggers);
    // Should be: Text, KeyPress, Text, KeyPress, Text = 5 segments
    assert_eq!(segments.len(), 5, "Expected 5 segments, got: {:?}", segments);

    match &segments[0] {
        OutputSegment::Text(t) => assert_eq!(t, "first paragraph"),
        _ => panic!("Expected text segment, got {:?}", segments[0]),
    }
    match &segments[1] {
        OutputSegment::KeyPress(k) => assert_eq!(k, "enter"),
        _ => panic!("Expected keypress segment, got {:?}", segments[1]),
    }
    match &segments[2] {
        OutputSegment::Text(t) => assert_eq!(t, "second paragraph"),
        _ => panic!("Expected text segment, got {:?}", segments[2]),
    }
    match &segments[3] {
        OutputSegment::KeyPress(k) => assert_eq!(k, "enter"),
        _ => panic!("Expected keypress segment, got {:?}", segments[3]),
    }
    match &segments[4] {
        OutputSegment::Text(t) => assert_eq!(t, "third paragraph"),
        _ => panic!("Expected text segment, got {:?}", segments[4]),
    }
}

#[test]
fn test_process_trigger_words_same_trigger_three_times_consecutive() {
    let triggers = vec![
        make_trigger("enter", TriggerActionType::KeyPress, "enter"),
    ];

    // Three enters in a row
    let segments = process_trigger_words("hello enter enter enter world", &triggers);
    assert_eq!(segments.len(), 5, "Expected 5 segments, got: {:?}", segments);

    match &segments[0] {
        OutputSegment::Text(t) => assert_eq!(t, "hello"),
        _ => panic!("Expected text segment"),
    }
    match &segments[1] {
        OutputSegment::KeyPress(k) => assert_eq!(k, "enter"),
        _ => panic!("Expected keypress segment"),
    }
    match &segments[2] {
        OutputSegment::KeyPress(k) => assert_eq!(k, "enter"),
        _ => panic!("Expected keypress segment"),
    }
    match &segments[3] {
        OutputSegment::KeyPress(k) => assert_eq!(k, "enter"),
        _ => panic!("Expected keypress segment"),
    }
    match &segments[4] {
        OutputSegment::Text(t) => assert_eq!(t, "world"),
        _ => panic!("Expected text segment"),
    }
}

#[test]
fn test_process_trigger_words_text_replacement_multiple_times() {
    let triggers = vec![
        make_trigger("period", TriggerActionType::TextReplacement, "."),
    ];

    let segments = process_trigger_words("first sentence period second sentence period third sentence", &triggers);
    assert_eq!(segments.len(), 1, "All text replacements should merge into one text segment, got: {:?}", segments);

    match &segments[0] {
        OutputSegment::Text(t) => assert_eq!(t, "first sentence . second sentence . third sentence"),
        _ => panic!("Expected merged text segment"),
    }
}

#[test]
fn test_process_trigger_words_multiple_triggers() {
    let triggers = vec![
        make_trigger("enter", TriggerActionType::KeyPress, "enter"),
        make_trigger("tab", TriggerActionType::KeyPress, "tab"),
    ];

    let segments = process_trigger_words("name tab email enter", &triggers);
    assert_eq!(segments.len(), 4);

    match &segments[0] {
        OutputSegment::Text(t) => assert_eq!(t, "name"),
        _ => panic!("Expected text segment"),
    }
    match &segments[1] {
        OutputSegment::KeyPress(k) => assert_eq!(k, "tab"),
        _ => panic!("Expected keypress segment"),
    }
    match &segments[2] {
        OutputSegment::Text(t) => assert_eq!(t, "email"),
        _ => panic!("Expected text segment"),
    }
    match &segments[3] {
        OutputSegment::KeyPress(k) => assert_eq!(k, "enter"),
        _ => panic!("Expected keypress segment"),
    }
}

/// Simulates the full pipeline: extract triggers from raw transcription,
/// join text for LLM processing, simulate LLM output, reconstruct segments.
#[test]
fn test_pipeline_extract_then_reconstruct_with_llm() {
    let triggers = vec![
        make_trigger("enter", TriggerActionType::KeyPress, "enter"),
    ];

    // Step 1: Raw transcription with trigger words
    let raw = "first paragraph enter second paragraph enter third paragraph";
    let segments = process_trigger_words(raw, &triggers);
    assert_eq!(segments.len(), 5);

    // Step 2: Extract text parts for LLM processing
    let text_parts: Vec<&str> = segments
        .iter()
        .filter_map(|s| match s {
            OutputSegment::Text(t) => Some(t.as_str()),
            _ => None,
        })
        .collect();
    let clean_text = text_parts.join("\n");
    assert_eq!(clean_text, "first paragraph\nsecond paragraph\nthird paragraph");

    // Step 3: Simulate LLM post-processing (capitalizes, adds periods)
    let llm_output = "First paragraph.\nSecond paragraph.\nThird paragraph.";

    // Step 4: Reconstruct segments with LLM-processed text
    let text_count = segments
        .iter()
        .filter(|s| matches!(s, OutputSegment::Text(_)))
        .count();
    let processed_parts: Vec<&str> = llm_output.split('\n').collect();
    assert_eq!(processed_parts.len(), text_count);

    let mut part_iter = processed_parts.into_iter();
    let reconstructed: Vec<OutputSegment> = segments
        .iter()
        .map(|s| match s {
            OutputSegment::Text(_) => {
                OutputSegment::Text(part_iter.next().unwrap().to_string())
            }
            OutputSegment::KeyPress(k) => OutputSegment::KeyPress(k.clone()),
        })
        .collect();

    // Verify: LLM-processed text with keypresses at their earlier positions
    assert_eq!(reconstructed.len(), 5);
    assert_eq!(reconstructed[0], OutputSegment::Text("First paragraph.".to_string()));
    assert_eq!(reconstructed[1], OutputSegment::KeyPress("enter".to_string()));
    assert_eq!(reconstructed[2], OutputSegment::Text("Second paragraph.".to_string()));
    assert_eq!(reconstructed[3], OutputSegment::KeyPress("enter".to_string()));
    assert_eq!(reconstructed[4], OutputSegment::Text("Third paragraph.".to_string()));
}

/// Tests that text replacements (like "period" -> ".") are applied before
/// the text would go to LLM, so the LLM sees proper punctuation.
#[test]
fn test_text_replacements_applied_before_llm() {
    let triggers = vec![
        make_trigger("period", TriggerActionType::TextReplacement, "."),
        make_trigger("comma", TriggerActionType::TextReplacement, ","),
    ];

    let raw = "hello period how are you comma I am fine";
    let segments = process_trigger_words(raw, &triggers);

    // All text replacements merge into one text segment
    assert_eq!(segments.len(), 1);
    match &segments[0] {
        OutputSegment::Text(t) => assert_eq!(t, "hello . how are you , I am fine"),
        _ => panic!("Expected text segment"),
    }
}
