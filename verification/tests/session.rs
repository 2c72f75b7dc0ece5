use ala_cities::session::{feedback, refusal_detail, refused_kind, Admission, Capture};

#[test]
fn a_capture_refuses_rather_than_truncating() {
    let mut capture = Capture::new();
    capture.cap = 3;
    let mut kinds: Vec<String> = Vec::new();
    for _ in 0..10u64 {
        match capture.decide(kinds.len()) {
            Admission::Record => kinds.push("click".to_string()),
            Admission::Refuse => kinds.push(refused_kind().to_string()),
            Admission::Ignore => {}
        }
    }
    assert!(capture.refused, "the cap must be recorded as a refusal");
    assert_eq!(kinds.len(), 4, "three events plus the refusal notice");
    assert_eq!(kinds.last().expect("a last event"), "capture.refused");
}

#[test]
fn a_capture_that_is_not_recording_keeps_nothing() {
    let mut capture = Capture::new();
    assert_eq!(capture.cap, 20_000);
    capture.recording = false;
    assert_eq!(capture.decide(0), Admission::Ignore);
    assert!(!capture.refused);
}

#[test]
fn the_refusal_notice_names_the_cap() {
    assert_eq!(
        refusal_detail(3),
        "capture reached its cap of 3 events and refused further recording rather than dropping events silently"
    );
}

#[test]
fn feedback_is_shaped_as_a_lesson_at_tentative_confidence() {
    let text = feedback("TEST", "session-1", "test-build", 42, 0, "  Roads feel slow.\n", &Vec::new());
    assert!(text.contains("confidence**: `tentative`"));
    assert!(text.contains("## Observation"));
    assert!(text.contains("## Applicability and limitations"));
    assert!(text.contains("## Observation\n\nRoads feel slow.\n\n## Supporting evidence"), "trimmed: {text}");
    assert!(text.contains("- None offered with this record.\n"));
    assert!(text.contains("- **capture file**: `playtest/TEST/sessions/session-1.jsonl`\n"));
    assert!(text.starts_with("# Playtest feedback — TEST\n\n"));
}

#[test]
fn feedback_lists_each_piece_of_evidence() {
    let extra = vec!["a screenshot".to_string(), "a second look".to_string()];
    let text = feedback("TEST", "s", "b", 7, 12, "x", &extra);
    assert!(text.contains("## Supporting evidence\n\n- a screenshot\n- a second look\n\n## Applicability"));
    assert!(text.contains("- **interactions recorded**: 12 in this session\n"));
    assert!(text.contains("- **captured**: 7 (unix ms)\n"));
}

#[test]
fn an_observation_loses_every_kind_of_surrounding_white_space() {
    let text = feedback(
        "TEST",
        "s",
        "b",
        1,
        0,
        "\u{3000}\u{00A0}\t Bridges\u{2009}wobble.\u{2029}\u{0085}\u{000B}",
        &Vec::new(),
    );
    assert!(
        text.contains("## Observation\n\nBridges\u{2009}wobble.\n\n## Supporting evidence"),
        "only the outer runs go: {text}"
    );
    let kept = feedback("TEST", "s", "b", 1, 0, "\u{200B}x\u{200B}", &Vec::new());
    assert!(
        kept.contains("## Observation\n\n\u{200B}x\u{200B}\n\n"),
        "a zero-width space is no white space: {kept}"
    );
}
