use minutes_core::config::Config;
use minutes_core::speakers::{
    extract_speaker_labels, extract_speaker_labels_pub, map_speakers, parse_speaker_mapping,
    speaker_mapping_prompt, Confidence, label_lines, line_stamps,
};
use minutes_core::summary::{
    build_prompt, format_summary, parse_summary_response, summarize, summarize_with_agent, summarize_with_screens,
    LlmRequest, Summary,
};

fn never_asked(_q: LlmRequest) -> Result<String, String> {
    panic!("no request expected")
}

#[test]
fn parse_summary_response_extracts_sections() {
    let response = "\
KEY POINTS:
- Discussed pricing strategy
- Agreed on annual billing/month minimum

DECISIONS:
- Price advisor platform at annual billing/mo

ACTION ITEMS:
- @user: Send pricing doc by Friday
- @case: Review competitor grid

OPEN QUESTIONS:
- Do we grandfather current customers?

COMMITMENTS:
- @sarah: Share revised pricing model by Tuesday";

    let summary = parse_summary_response(response);
    assert_eq!(summary.key_points.len(), 2);
    assert_eq!(summary.decisions.len(), 1);
    assert_eq!(summary.action_items.len(), 2);
    assert_eq!(summary.open_questions.len(), 1);
    assert_eq!(summary.commitments.len(), 1);
    assert!(summary.action_items[0].contains("@user"));
}

#[test]
fn parse_summary_response_handles_freeform_text() {
    let response = "This meeting covered pricing and roadmap. No specific decisions.";
    let summary = parse_summary_response(response);
    assert!(summary.key_points.is_empty());
    assert!(!summary.text.is_empty());
}

#[test]
fn build_prompt_returns_single_chunk_for_short_transcript() {
    let transcript = "Short transcript.";
    let chunks = build_prompt(transcript, 4000);
    assert_eq!(chunks.len(), 1);
}

#[test]
fn build_prompt_splits_long_transcript() {
    let transcript = (0..20)
        .map(|i| format!("[0:{:02}] This is line number {} of the transcript.\n", i, i))
        .collect::<String>();
    let chunks = build_prompt(&transcript, 25);
    assert!(chunks.len() > 1, "should split into multiple chunks");
}

#[test]
fn parse_summary_response_extracts_participants() {
    let response = "\
KEY POINTS:
- Discussed the patent

PARTICIPANTS:
- Dan (patent attorney)
- Catherine
- Mat (demo/dev)";

    let summary = parse_summary_response(response);
    assert_eq!(summary.participants.len(), 3);
    assert_eq!(summary.participants[0], "Dan");
    assert_eq!(summary.participants[1], "Catherine");
    assert_eq!(summary.participants[2], "Mat");
}

#[test]
fn format_summary_produces_markdown() {
    let summary = Summary {
        text: String::new(),
        key_points: vec!["Point one".into(), "Point two".into()],
        decisions: vec!["Decision A".into()],
        action_items: vec!["@user: Do the thing".into()],
        open_questions: vec!["Should we grandfather current customers?".into()],
        commitments: vec!["@case: Share the rollout plan by Friday".into()],
        participants: vec!["User".into(), "Case".into()],
    };
    let md = format_summary(&summary);
    assert!(md.contains("- Point one"));
    assert!(md.contains("## Decisions"));
    assert!(md.contains("- [x] Decision A"));
    assert!(md.contains("## Action Items"));
    assert!(md.contains("- [ ] @user: Do the thing"));
    assert!(md.contains("## Open Questions"));
    assert!(md.contains("## Commitments"));
}

#[test]
fn summarize_returns_none_when_disabled() {
    let config = Config::default();
    let result = summarize("some transcript", &config, never_asked);
    assert!(result.is_none());
}

#[test]
fn extract_speaker_labels_finds_unique() {
    let t = "[SPEAKER_1 0:00] Hi\n[SPEAKER_2 0:05] Hey\n[SPEAKER_1 0:10] Ok\n";
    assert_eq!(extract_speaker_labels(t), vec!["SPEAKER_1", "SPEAKER_2"]);
}

#[test]
fn extract_speaker_labels_ignores_named() {
    assert_eq!(
        extract_speaker_labels("[Mat 0:00] Hi\n[SPEAKER_1 0:05] Hey\n"),
        vec!["SPEAKER_1"]
    );
}

#[test]
fn parse_speaker_mapping_valid() {
    let r = "SPEAKER_1 = Alex Chen\nSPEAKER_2 = Sarah Kim\n";
    let s = vec!["SPEAKER_1".into(), "SPEAKER_2".into()];
    let a = vec!["Alex Chen".into(), "Sarah Kim".into()];
    let result = parse_speaker_mapping(r, &s, &a);
    assert_eq!(result.len(), 2);
    assert_eq!(result[0].name, "Alex Chen");
    assert_eq!(result[0].confidence, Confidence::Medium);
}

#[test]
fn parse_speaker_mapping_skips_unknown() {
    let r = "SPEAKER_1 = Alex\nSPEAKER_2 = UNKNOWN\n";
    let result = parse_speaker_mapping(
        r,
        &["SPEAKER_1".into(), "SPEAKER_2".into()],
        &["Alex Chen".into()],
    );
    assert_eq!(result.len(), 1);
}

#[test]
fn parse_speaker_mapping_rejects_hallucinated() {
    let result =
        parse_speaker_mapping("SPEAKER_1 = Bob\n", &["SPEAKER_1".into()], &["Alex".into()]);
    assert!(result.is_empty());
}

#[test]
fn map_speakers_empty_when_no_speakers() {
    let config = Config::default();
    assert!(map_speakers("[0:00] no labels", &["Alex".into()], &config, never_asked).is_empty());
}

#[test]
fn map_speakers_empty_when_no_attendees() {
    let config = Config::default();
    assert!(map_speakers("[SPEAKER_1 0:00] hi", &[], &config, never_asked).is_empty());
}

// ── further cases ──

#[test]
fn format_summary_exact_layout() {
    let summary = Summary {
        text: String::new(),
        key_points: vec!["A".into()],
        decisions: vec![],
        action_items: vec!["B".into()],
        open_questions: vec![],
        commitments: vec![],
        participants: vec![],
    };
    assert_eq!(format_summary(&summary), "- A\n\n## Action Items\n\n- [ ] B\n");
}

#[test]
fn build_prompt_keeps_whole_lines() {
    let chunks = build_prompt("aaaa\nbbbb\ncccc\n", 2);
    let joined: String = chunks.concat();
    assert_eq!(joined, "aaaa\nbbbb\ncccc\n");
    assert!(chunks.len() > 1);
}

#[test]
fn summarize_agent_parses_reply() {
    let mut config = Config::default();
    config.summarization.engine = "agent".into();
    let reply = |q: LlmRequest| -> Result<String, String> {
        match q {
            LlmRequest::Prompt(p) => {
                assert!(p.contains("Summarize this transcript"));
                assert!(p.ends_with("we agreed"));
                Ok("DECISIONS:\n- Ship it".to_string())
            }
            _ => Err("unexpected".into()),
        }
    };
    let s = summarize("we agreed", &config, reply).expect("summary");
    assert_eq!(s.decisions, vec!["Ship it".to_string()]);
}

#[test]
fn summarize_failed_request_gives_none() {
    let mut config = Config::default();
    config.summarization.engine = "anthropic".into();
    let fail = |_q: LlmRequest| -> Result<String, String> { Err("offline".into()) };
    assert!(summarize_with_screens("hello", &[], &config, fail).is_none());
}

#[test]
fn unknown_engine_gives_no_summary() {
    let mut config = Config::default();
    config.summarization.engine = "bard".into();
    assert!(summarize("hello", &config, never_asked).is_none());
}

#[test]
fn speaker_labels_pub_matches_private() {
    let t = "[SPEAKER_3 0:00] a\n[SPEAKER_1 0:01] b\n";
    assert_eq!(extract_speaker_labels_pub(t), extract_speaker_labels(t));
}

#[test]
fn mapping_prompt_lists_attendees() {
    let p = speaker_mapping_prompt("[SPEAKER_1 0:00] hi", &["Alex".into(), "Sam".into()]);
    assert!(p.contains("Alex, Sam"));
    assert!(p.contains("[SPEAKER_1 0:00] hi"));
}

#[test]
fn stamped_lines_take_their_speakers() {
    let transcript = "[0:00] Hello everyone\n[0:05] Thanks for joining\n";
    assert_eq!(line_stamps(transcript), vec![Some("0:00".to_string()), Some("0:05".to_string())]);
    let labeled = label_lines(transcript, &[Some("SPEAKER_0".to_string()), Some("SPEAKER_1".to_string())]);
    assert_eq!(labeled, "[SPEAKER_0 0:00] Hello everyone\n[SPEAKER_1 0:05] Thanks for joining\n");
    assert!(labeled.contains("[SPEAKER_0 0:00]"));
    assert!(labeled.contains("[SPEAKER_1 0:05]"));
}

#[test]
fn unstamped_or_unmatched_lines_are_kept() {
    let transcript = "title line\n[bad] text\n[1:00]   spaced   \n[open";
    assert_eq!(
        line_stamps(transcript),
        vec![None, Some("bad".to_string()), Some("1:00".to_string()), None]
    );
    let labeled = label_lines(transcript, &[None, None, Some("SPEAKER_2".to_string())]);
    assert_eq!(labeled, "title line\n[bad] text\n[SPEAKER_2 1:00] spaced\n[open\n");
}

#[test]
fn chunks_fit_the_budget() {
    let transcript = (0..20)
        .map(|i| format!("[0:{:02}] This is line number {} of the transcript.\n", i, i))
        .collect::<String>();
    let chunks = build_prompt(&transcript, 25);
    assert!(chunks.len() > 1);
    for c in &chunks {
        assert!(c.len() <= 101 || c.matches('\n').count() == 1, "chunk too long: {:?}", c);
    }
    assert_eq!(chunks.concat(), transcript);
    let long_line = "x".repeat(300);
    let chunks = build_prompt(&format!("short\n{}\nend", long_line), 25);
    assert_eq!(chunks, vec!["short\n".to_string(), format!("{}\n", long_line), "end\n".to_string()]);
}

#[test]
fn speaker_labels_come_in_order_of_first_appearance() {
    let t = "[SPEAKER_2 0:00] a\n[0:03] no label\n[SPEAKER_0 0:05] b\n[SPEAKER_2 0:09] c\n[SPEAKER_1] no space\n";
    assert_eq!(extract_speaker_labels_pub(t), vec!["SPEAKER_2", "SPEAKER_0"]);
}

#[test]
fn agent_summary_outcomes() {
    let seen = std::cell::RefCell::new(String::new());
    let ok = |q: LlmRequest| -> Result<String, String> {
        if let LlmRequest::Prompt(p) = &q {
            *seen.borrow_mut() = p.clone();
        }
        Ok("DECISIONS:\n- Ship it\n".into())
    };
    let s = summarize_with_agent("hello", "codex", ok).unwrap();
    assert_eq!(s.decisions, vec!["Ship it".to_string()]);
    assert!(seen.borrow().ends_with("\n\nSummarize this transcript:\n\nhello"));
    let blank = |_q: LlmRequest| -> Result<String, String> { Ok("  \n".into()) };
    assert_eq!(summarize_with_agent("hello", "codex", blank).unwrap_err(), "Agent 'codex' returned empty output");
    let failed = |_q: LlmRequest| -> Result<String, String> { Err("Agent 'codex' timed out after 300s".into()) };
    assert_eq!(summarize_with_agent("hello", "codex", failed).unwrap_err(), "Agent 'codex' timed out after 300s");
}
