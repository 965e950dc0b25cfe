use minutes_core::segments::{
    clean_transcript, dedup_interleaved, dedup_segments, trim_trailing_noise, CleanStats,
};

// ── clean_transcript end-to-end ──

#[test]
fn clean_transcript_removes_repetition() {
    let input = "[0:00] Hello world\n[0:03] Hello world\n[0:06] Hello world\n[0:09] Hello world\n[0:12] Something different\n";
    let (cleaned, stats) = clean_transcript(input);
    assert!(stats.lines_removed > 0);
    assert!(cleaned.contains("Something different"));
    assert!(cleaned.contains("repeated audio removed"));
}

#[test]
fn clean_transcript_preserves_normal_text() {
    let input = "[0:00] First line\n[0:05] Second line\n[0:10] Third line\n";
    let (cleaned, stats) = clean_transcript(input);
    assert_eq!(stats.lines_removed, 0);
    assert!(cleaned.contains("First line"));
    assert!(cleaned.contains("Third line"));
}

// ── dedup_segments ──

#[test]
fn dedup_no_repetition() {
    let lines: Vec<String> = vec![
        "[0:00] Hello world".into(),
        "[0:03] How are you".into(),
        "[0:06] Fine thanks".into(),
    ];
    let result = dedup_segments(&lines);
    assert_eq!(result, lines);
}

#[test]
fn dedup_collapses_exact_repetition() {
    let lines: Vec<String> = vec![
        "[0:00] Hello world".into(),
        "[0:03] Hello world".into(),
        "[0:06] Hello world".into(),
        "[0:09] Hello world".into(),
        "[0:12] Something different".into(),
    ];
    let result = dedup_segments(&lines);
    assert_eq!(result.len(), 3);
    assert!(result[0].contains("Hello world"));
    assert!(result[1].contains("repeated audio removed"));
    assert!(result[2].contains("Something different"));
}

#[test]
fn dedup_collapses_near_identical() {
    let lines: Vec<String> = vec![
        "[0:00] Ok bene le macedi diesel".into(),
        "[0:03] Ok, bene le macedi diesel".into(),
        "[0:06] Ok bene, le macedi diesel".into(),
        "[0:09] Good morning".into(),
    ];
    let result = dedup_segments(&lines);
    assert_eq!(result.len(), 3);
    assert!(result[1].contains("repeated audio removed"));
}

#[test]
fn dedup_leaves_two_similar_alone() {
    let lines: Vec<String> = vec![
        "[0:00] Hello world".into(),
        "[0:03] Hello world".into(),
        "[0:06] Something else".into(),
    ];
    let result = dedup_segments(&lines);
    assert_eq!(result, lines);
}

#[test]
fn dedup_handles_empty() {
    let result = dedup_segments(&vec![]);
    assert!(result.is_empty());
}

#[test]
fn dedup_handles_single_line() {
    let lines: Vec<String> = vec!["[0:00] Hello".into()];
    let result = dedup_segments(&lines);
    assert_eq!(result, lines);
}

#[test]
fn dedup_multiple_runs() {
    let lines: Vec<String> = vec![
        "[0:00] First phrase".into(),
        "[0:03] First phrase".into(),
        "[0:06] First phrase".into(),
        "[0:09] Second phrase".into(),
        "[0:12] Second phrase".into(),
        "[0:15] Second phrase".into(),
        "[0:18] Second phrase".into(),
        "[0:21] Normal text".into(),
    ];
    let result = dedup_segments(&lines);
    assert_eq!(result.len(), 5);
    assert!(result[1].contains("2 identical"));
    assert!(result[3].contains("3 identical"));
}

// ── interleaved dedup ──

#[test]
fn interleaved_catches_alternating_pattern() {
    let mut lines: Vec<String> = Vec::new();
    for i in 0..20 {
        let ts = i * 2;
        if i % 2 == 0 {
            lines.push(format!(
                "[{}:{:02}] So I'm going to pick his brain as well.",
                ts / 60,
                ts % 60
            ));
        } else {
            lines.push(format!("[{}:{:02}] Okay.", ts / 60, ts % 60));
        }
    }
    lines.push("[0:40] Something completely different".into());

    let result = dedup_interleaved(&lines);
    assert!(
        result.len() <= 4,
        "expected <=4 lines, got {}: {:?}",
        result.len(),
        result
    );
    assert!(result.iter().any(|l| l.contains("pick his brain")));
    assert!(result
        .iter()
        .any(|l| l.contains("hallucinated repetition removed")));
    assert!(result
        .last()
        .unwrap()
        .contains("Something completely different"));
}

#[test]
fn interleaved_leaves_normal_conversation() {
    let lines: Vec<String> = vec![
        "[0:00] Hello how are you".into(),
        "[0:05] I'm fine thanks".into(),
        "[0:10] Great to hear".into(),
        "[0:15] Let's talk about the project".into(),
        "[0:20] Sure what's the update".into(),
        "[0:25] We shipped the feature".into(),
    ];
    let result = dedup_interleaved(&lines);
    assert_eq!(result, lines);
}

#[test]
fn interleaved_ignores_short_repeats() {
    let lines: Vec<String> = vec![
        "[0:00] Hello world".into(),
        "[0:02] Okay.".into(),
        "[0:04] Hello world".into(),
        "[0:06] Okay.".into(),
        "[0:08] Hello world".into(),
        "[0:10] Something else".into(),
    ];
    let result = dedup_interleaved(&lines);
    assert_eq!(result, lines);
}

// ── trailing noise ──

#[test]
fn trim_trailing_music() {
    let mut lines: Vec<String> = vec![
        "[0:00] Hello world".into(),
        "[0:05] Some real content".into(),
    ];
    for i in 0..20 {
        lines.push(format!("[{}:00] [music]", i + 1));
    }
    let result = trim_trailing_noise(&lines);
    assert_eq!(result.len(), 3);
    assert!(result[0].contains("Hello world"));
    assert!(result[1].contains("real content"));
    assert!(result[2].contains("trailing noise removed"));
}

#[test]
fn trim_keeps_short_trailing_noise() {
    let lines: Vec<String> = vec![
        "[0:00] Hello world".into(),
        "[0:05] [music]".into(),
        "[0:10] [music]".into(),
        "[0:15] [music]".into(),
    ];
    let result = trim_trailing_noise(&lines);
    assert_eq!(result, lines);
}

#[test]
fn trim_handles_empty() {
    assert!(trim_trailing_noise(&vec![]).is_empty());
}

#[test]
fn trim_all_noise() {
    let lines: Vec<String> = (0..10).map(|i| format!("[{}:00] [music]", i)).collect();
    let result = trim_trailing_noise(&lines);
    assert_eq!(result.len(), 1);
    assert!(result[0].contains("trailing noise removed"));
}

// ── further cases ──

#[test]
fn dedup_marker_text_is_exact() {
    let lines: Vec<String> = vec!["[0:00] A b".into(), "[0:01] a B".into(), "[0:02] A B".into()];
    let result = dedup_segments(&lines);
    assert_eq!(
        result,
        vec![
            "[0:00] A b".to_string(),
            "[...] [repeated audio removed — 2 identical segments collapsed]".to_string()
        ]
    );
}

#[test]
fn trim_marker_counts_lines() {
    let lines: Vec<String> = vec![
        "[0:00] Talk".into(),
        "you".into(),
        "[0:02]   YOU  ".into(),
        "[0:03] [BLANK_AUDIO]".into(),
        "[0:04] Okay.".into(),
        "[0:05] yeah.".into(),
        "[0:06] music".into(),
    ];
    let result = trim_trailing_noise(&lines);
    assert_eq!(
        result,
        vec![
            "[0:00] Talk".to_string(),
            "[Recording ended — 6 lines of trailing noise removed]".to_string()
        ]
    );
}

#[test]
fn trim_is_idempotent_on_example() {
    let lines: Vec<String> = (0..7).map(|i| format!("[0:0{}] [silence]", i)).collect();
    let once = trim_trailing_noise(&lines);
    let twice = trim_trailing_noise(&once);
    assert_eq!(once, twice);
}

#[test]
fn clean_transcript_reports_stats() {
    let input = "[0:00] x\n[0:01] x\n[0:02] x\n";
    let (cleaned, stats) = clean_transcript(input);
    assert_eq!(
        stats,
        CleanStats {
            original_lines: 3,
            after_consecutive_dedup: 2,
            after_interleaved_dedup: 2,
            after_trailing_trim: 2,
            lines_removed: 1,
        }
    );
    assert_eq!(
        cleaned,
        "[0:00] x\n[...] [repeated audio removed — 2 identical segments collapsed]"
    );
}

#[test]
fn similarity_uses_word_overlap() {
    // Four of five words shared: 80% counts as similar.
    let lines: Vec<String> = vec![
        "[0:00] one two three four five".into(),
        "[0:01] one two three four six".into(),
        "[0:02] one two three four seven".into(),
    ];
    assert_eq!(dedup_segments(&lines).len(), 2);
}

#[test]
fn dedup_twice_is_dedup_once() {
    let lines: Vec<String> = vec![
        "[0:00] Hello world",
        "[0:03] Hello world",
        "[0:06] Hello world",
        "[0:09] Other",
        "[0:12] Other",
        "[0:15] Something else",
    ]
    .into_iter()
    .map(String::from)
    .collect();
    let once = dedup_segments(&lines);
    assert_eq!(dedup_segments(&once), once);
}

#[test]
fn clean_transcript_drops_a_final_empty_line_each_run() {
    let (once, _) = clean_transcript("a\n\n");
    assert_eq!(once, "a\n");
    let (twice, _) = clean_transcript(&once);
    assert_eq!(twice, "a");
}

#[test]
fn cleaning_twice_changes_nothing_after_repetition() {
    let input = "[0:00] Hello world\n[0:03] Hello world\n[0:06] Hello world\n[0:09] Hello world\n[0:12] Something different\n";
    let (once, _) = clean_transcript(input);
    let (twice, stats) = clean_transcript(&once);
    assert_eq!(twice, once);
    assert_eq!(stats.lines_removed, 0);
}

#[test]
fn cleaning_twice_keeps_a_final_carriage_return() {
    let input = "[0:00] hi\n[0:05] there\r";
    let (once, _) = clean_transcript(input);
    assert_eq!(once, input);
    let (twice, _) = clean_transcript(&once);
    assert_eq!(twice, once);
}

#[test]
fn cleaning_strips_a_doubled_carriage_return_in_two_runs() {
    let (once, _) = clean_transcript("a\r\r\nb");
    assert_eq!(once, "a\r\nb");
    let (twice, _) = clean_transcript(&once);
    assert_eq!(twice, "a\nb");
}
