use minutes_core::config::Config;
use minutes_core::entities::{build_entity_links, normalize_entity_topic, slugify};
use minutes_core::frontmatter::{extract_date, extract_frontmatter_field, extract_title, extract_type};
use minutes_core::intents::{
    due_date_ok, extract_action_items, extract_decisions, extract_due_date, extract_intents,
    infer_topic, intents_ok, parse_actor_prefix, ActionItem, Decision, Intent, IntentKind,
};
use minutes_core::pipeline::{
    duration_from_size, meeting_record, output_status, record_directory, record_file_name, should_diarize, should_remove_screens,
    should_summarize, source_for, transcript_with_context, word_count, ContentType, OutputStatus,
    PipelineStage,
};
use minutes_core::pipeline::{check_audio_input, render_record};
use minutes_core::segments::clean_transcript;
use minutes_core::summary::Summary;
use minutes_core::transcribe::TranscribeError;
use minutes_core::title::{
    clean_transcript_line, finalize_title, generate_title, strip_lead_in_phrase,
    title_from_context, title_from_transcript, to_display_title, transcript_title_ok,
};

fn empty_summary() -> Summary {
    Summary {
        text: String::new(),
        key_points: vec![],
        decisions: vec![],
        action_items: vec![],
        open_questions: vec![],
        commitments: vec![],
        participants: vec![],
    }
}

#[test]
fn generate_title_takes_first_words() {
    let transcript = "We need to discuss the new pricing strategy for Q2";
    let title = generate_title(transcript, None);
    assert_eq!(title, "The New Pricing Strategy for Q2");
}

#[test]
fn generate_title_prefers_context_when_available() {
    let transcript = "Okay so I just had an idea about onboarding";
    let title = generate_title(transcript, Some("Q2 pricing discussion with Alex"));
    assert_eq!(title, "Q2 Pricing Discussion with Alex");
}

#[test]
fn generate_title_falls_back_when_only_timestamps_exist() {
    let transcript = "[0:00]";
    let title = generate_title(transcript, None);
    assert_eq!(title, "Untitled Recording");
}

#[test]
fn extract_decisions_with_topic_inference() {
    let summary = Summary {
        decisions: vec![
            "Price advisor platform at monthly billing/mo".into(),
            "Use REST over GraphQL for the new API".into(),
        ],
        ..empty_summary()
    };

    let decisions = extract_decisions(&summary);
    assert_eq!(decisions.len(), 2);
    assert!(decisions[0].topic.is_some());
    assert!(decisions[0].text.contains("monthly billing"));
}

#[test]
fn extract_due_date_patterns() {
    assert_eq!(extract_due_date("Send doc by Friday"), Some("Friday".into()));
    assert_eq!(extract_due_date("Review (due March 21)"), Some("March 21".into()));
    assert_eq!(extract_due_date("Just do this thing"), None);
}

// ── speaker tags, lead-ins, assignees and people ──

#[test]
fn title_strips_speaker_tag_and_lead_in() {
    let transcript = "[SPEAKER_0 0:00] let's talk about API launch timeline for Q2";
    assert_eq!(generate_title(transcript, None), "API Launch Timeline for Q2");
}

#[test]
fn action_items_read_assignee_task_and_due() {
    let summary = Summary {
        action_items: vec![
            "@user: Send pricing doc by Friday".into(),
            "@sarah: Review competitor grid (due March 21)".into(),
            "Unassigned task with no @".into(),
        ],
        ..empty_summary()
    };
    let items = extract_action_items(&summary);
    assert_eq!(items.len(), 3);
    assert_eq!(items[0].assignee, "user");
    assert_eq!(items[0].task, "Send pricing doc by Friday");
    assert_eq!(items[0].due, Some("Friday".into()));
    assert_eq!(items[0].status, "open");
    assert_eq!(items[1].assignee, "sarah");
    assert_eq!(items[1].due, Some("March 21".into()));
    assert_eq!(items[2].assignee, "unassigned");
    assert_eq!(items[2].task, "Unassigned task with no @");
}

#[test]
fn intents_read_people_and_dates() {
    let summary = Summary {
        decisions: vec!["Use REST over GraphQL for the new API".into()],
        action_items: vec!["@user: Send pricing doc by Friday".into()],
        open_questions: vec!["@case: Do we grandfather current customers?".into()],
        commitments: vec!["@sarah: Share revised pricing model by Tuesday".into()],
        ..empty_summary()
    };
    let intents = extract_intents(&summary);
    assert_eq!(intents.len(), 4);
    assert_eq!(intents[0].who.as_deref(), Some("user"));
    assert_eq!(intents[0].by_date.as_deref(), Some("Friday"));
    assert_eq!(intents[1].status, "decided");
    assert_eq!(intents[2].who.as_deref(), Some("case"));
    assert_eq!(intents[2].what, "Do we grandfather current customers?");
    assert_eq!(intents[3].who.as_deref(), Some("sarah"));
    assert_eq!(intents[3].what, "Share revised pricing model by Tuesday");
    assert_eq!(intents[3].by_date.as_deref(), Some("Tuesday"));
}

#[test]
fn entity_links_from_meeting_items() {
    let action_items = vec![ActionItem {
        assignee: "mat".into(),
        task: "Send pricing doc".into(),
        due: Some("Friday".into()),
        status: "open".into(),
    }];
    let decisions = vec![Decision {
        text: "Launch pricing at monthly billing per month".into(),
        topic: Some("pricing strategy".into()),
    }];
    let intents = vec![Intent {
        kind: IntentKind::Commitment,
        what: "Share revised pricing model".into(),
        who: Some("Alex Chen".into()),
        status: "open".into(),
        by_date: Some("Tuesday".into()),
    }];
    let entities = build_entity_links(
        "Q2 Pricing Discussion",
        Some("pricing review with Alex"),
        &["Case Wintermute".into()],
        &action_items,
        &decisions,
        &intents,
        &["advisor-platform".into()],
    );
    let people: Vec<&str> = entities.people.iter().map(|e| e.slug.as_str()).collect();
    assert_eq!(people, vec!["alex-chen", "case-wintermute", "mat"]);
    let projects: Vec<&str> = entities.projects.iter().map(|e| e.slug.as_str()).collect();
    assert_eq!(
        projects,
        vec!["advisor-platform", "pricing-review-alex", "pricing-strategy", "q2-pricing-discussion"]
    );
    let strategy = &entities.projects[2];
    assert_eq!(strategy.label, "Pricing Strategy");
    assert_eq!(
        strategy.aliases,
        vec![
            "launch pricing at monthly billing per month".to_string(),
            "pricing strategy".to_string()
        ]
    );
}

// ── titles ──

#[test]
fn title_word_casing_rules() {
    assert_eq!(to_display_title("the API of the q2 launch"), "The API of the q2 Launch");
    assert_eq!(to_display_title("...hello world. And more"), "Hello World");
    assert_eq!(to_display_title("ÉTÉ plans"), "Été Plans");
}

#[test]
fn finalize_title_cuts_long_titles() {
    let long: String = "x".repeat(61);
    let done = finalize_title(long);
    assert_eq!(done.chars().count(), 60);
    assert!(done.ends_with("..."));
    let exact: String = "y".repeat(60);
    assert_eq!(finalize_title(exact.clone()), exact);
}

#[test]
fn context_title_skips_generic_words() {
    assert_eq!(title_from_context("  Meeting "), None);
    assert_eq!(title_from_context("   "), None);
    assert_eq!(
        title_from_context("budget  review"),
        Some("Budget Review".to_string())
    );
}

#[test]
fn transcript_line_cleaning() {
    assert_eq!(
        clean_transcript_line("  [0:00] [SPEAKER_1 0:01]  hello   there "),
        Some("hello there".to_string())
    );
    assert_eq!(clean_transcript_line("[0:00 unclosed"), None);
    assert_eq!(clean_transcript_line("[0:00]   "), None);
}

#[test]
fn lead_in_phrase_removed() {
    assert_eq!(strip_lead_in_phrase("Let's discuss  the budget"), "the budget");
    assert_eq!(strip_lead_in_phrase("budget first"), "budget first");
}

#[test]
fn transcript_title_skips_untagged_blank_lines() {
    let t = "[0:00]\n\n[0:05] this is about hiring\n";
    assert!(transcript_title_ok(t));
    assert_eq!(title_from_transcript(t), Some("Hiring".to_string()));
}

#[test]
fn generated_title_of_long_line_is_cut() {
    let t = "[0:00] one two three four five six seven eight nine ten eleven twelve thirteen";
    let title = generate_title(t, Some("meeting"));
    assert_eq!(title.chars().count(), 60);
    assert!(title.starts_with("One Two Three"));
}

// ── intents ──

#[test]
fn actor_prefix_cases() {
    assert_eq!(
        parse_actor_prefix("@ana: Ship it"),
        (Some("ana".to_string()), "Ship it".to_string())
    );
    assert_eq!(parse_actor_prefix("@ : Ship it"), (None, "Ship it".to_string()));
    assert_eq!(parse_actor_prefix("  Ship it  "), (None, "Ship it".to_string()));
    assert_eq!(parse_actor_prefix("@ana Ship it"), (None, "@ana Ship it".to_string()));
}

#[test]
fn due_date_falls_back_to_due_marker() {
    assert_eq!(extract_due_date("Finish by (soon) due next week"), Some("next week".into()));
    assert_eq!(extract_due_date("Deliver BY Monday-ish!"), Some("Monday-ish".into()));
    assert!(due_date_ok("Send doc by Friday"));
}

#[test]
fn action_item_task_is_cleaned() {
    let summary = Summary {
        action_items: vec!["@bo: Review grid (due March 21)".into(), "@nocolon task".into()],
        ..empty_summary()
    };
    let items = extract_action_items(&summary);
    assert_eq!(items[0].assignee, "bo");
    assert_eq!(items[0].task, "Review grid (due March 21");
    assert_eq!(items[1].assignee, "unassigned");
    assert_eq!(items[1].task, "@nocolon task");
}

#[test]
fn topic_skips_stopwords() {
    assert_eq!(
        infer_topic("We will use the new billing system now"),
        Some("use new billing system".to_string())
    );
    assert_eq!(infer_topic("the a an"), None);
}

#[test]
fn intent_kinds_in_order() {
    let summary = Summary {
        decisions: vec!["Go".into()],
        action_items: vec!["Do it".into()],
        open_questions: vec!["Why?".into()],
        commitments: vec!["@kim: Report by Monday)".into()],
        ..empty_summary()
    };
    assert!(intents_ok(&summary));
    let intents = extract_intents(&summary);
    let kinds: Vec<IntentKind> = intents.iter().map(|i| i.kind).collect();
    assert_eq!(
        kinds,
        vec![IntentKind::ActionItem, IntentKind::Decision, IntentKind::OpenQuestion, IntentKind::Commitment]
    );
    assert_eq!(intents[0].who, None);
    assert_eq!(intents[3].what, "Report by Monday");
    assert_eq!(intents[3].by_date.as_deref(), Some("Monday"));
}

// ── entities ──

#[test]
fn slugs_and_topics() {
    assert_eq!(slugify("  Hello, World!  "), "hello-world");
    assert_eq!(slugify("--"), "");
    assert_eq!(normalize_entity_topic("We should use the (new) billing system!"), "new billing system");
}

#[test]
fn entity_links_are_sorted_and_merged() {
    let entities = build_entity_links(
        "Budget",
        None,
        &["@zoe".into(), "Amy Lee".into(), "amy lee".into(), "unassigned".into()],
        &[],
        &[],
        &[],
        &["Budget".into(), "roadmap".into()],
    );
    let slugs: Vec<&str> = entities.people.iter().map(|e| e.slug.as_str()).collect();
    assert_eq!(slugs, vec!["amy-lee", "zoe"]);
    assert_eq!(entities.people[0].label, "Amy Lee");
    assert_eq!(entities.people[0].aliases, vec!["amy lee".to_string()]);
    assert_eq!(entities.people[1].aliases, vec!["@zoe".to_string(), "zoe".to_string()]);
    let projects: Vec<&str> = entities.projects.iter().map(|e| e.slug.as_str()).collect();
    assert_eq!(projects, vec!["budget", "roadmap"]);
}

// ── pipeline decisions ──

#[test]
fn status_and_stage_choices() {
    let mut config = Config::default();
    config.transcription.min_words = 3;
    assert_eq!(output_status(2, &config), OutputStatus::NoSpeech);
    assert_eq!(output_status(3, &config), OutputStatus::TranscriptOnly);
    config.summarization.engine = "anthropic".into();
    assert_eq!(output_status(3, &config), OutputStatus::Complete);
    assert!(should_summarize(&config));
    assert!(!should_diarize(&config, ContentType::Meeting));
    config.diarization.engine = "pyannote".into();
    assert!(should_diarize(&config, ContentType::Meeting));
    assert!(!should_diarize(&config, ContentType::Memo));
    assert!(should_remove_screens(2, &config));
    assert!(!should_remove_screens(0, &config));
    assert_eq!(source_for(ContentType::Memo), Some("voice-memo".to_string()));
    assert_eq!(source_for(ContentType::Meeting), None);
    assert_ne!(PipelineStage::Saving, PipelineStage::Transcribing);
}

#[test]
fn word_count_splits_on_whitespace() {
    assert_eq!(word_count("  one\ttwo\n three "), 3);
    assert_eq!(word_count(""), 0);
}

#[test]
fn estimate_duration_formats_correctly() {
    assert_eq!(duration_from_size(2_880_044), "1m 30s");
    assert_eq!(duration_from_size(44), "0s");
    assert_eq!(duration_from_size(32_044 * 2), "2s");
}

#[test]
fn context_for_summarizer() {
    assert_eq!(transcript_with_context("T", None, 0, "/d"), "T");
    let with = transcript_with_context("T", Some("n"), 2, "/d");
    assert!(with.starts_with("USER NOTES (these moments were marked as important — weight them heavily):\nn\n\nSCREEN CONTEXT: 2 screenshots"));
    assert!(with.contains("available at /d for visual"));
    assert!(with.ends_with("\n\nTRANSCRIPT:\nT"));
}

#[test]
fn record_of_a_memo() {
    let summary = Summary {
        action_items: vec!["@li: Draft plan by Friday".into()],
        decisions: vec!["Adopt the roadmap".into()],
        ..empty_summary()
    };
    let rec = meeting_record(
        "[0:00] let's discuss the roadmap",
        ContentType::Memo,
        None,
        None,
        Some(&summary),
        OutputStatus::Complete,
        64_044,
    );
    assert_eq!(rec.title, "The Roadmap");
    assert_eq!(rec.duration, "2s");
    assert_eq!(rec.source, Some("voice-memo".to_string()));
    assert_eq!(rec.people, vec!["Li".to_string()]);
    assert_eq!(rec.action_items[0].due, Some("Friday".into()));
    assert_eq!(rec.intents.len(), 2);
    assert!(rec.summary.unwrap().contains("- [ ] @li: Draft plan by Friday"));
    let projects: Vec<&str> = rec.entities.projects.iter().map(|e| e.slug.as_str()).collect();
    assert_eq!(projects, vec!["adopt-roadmap", "roadmap"]);
}

// ── frontmatter ──

#[test]
fn frontmatter_fields() {
    let content = "---\ntitle: \"Q2 Review\"\ndate: 2026-03-01\ntype: 'memo'\n---\n";
    assert_eq!(extract_title(content), Some("Q2 Review".to_string()));
    assert_eq!(extract_date(content), Some("2026-03-01".to_string()));
    assert_eq!(extract_type(content), Some("memo".to_string()));
    assert_eq!(extract_frontmatter_field(content, "tags"), None);
}

#[test]
fn audio_input_checks() {
    assert!(matches!(check_audio_input(0, "a.wav", None, &[]), Err(TranscribeError::EmptyAudio)));
    assert!(check_audio_input(5, "a.wav", Some("/x/a.wav"), &[]).is_ok());
    assert!(check_audio_input(5, "a.wav", None, &[Some("/y".into())]).is_ok());
    assert!(check_audio_input(5, "a.wav", Some("/x/a.wav"), &[None, Some("/x".into())]).is_ok());
    match check_audio_input(5, "a.wav", Some("/xy/a.wav"), &[Some("/x".into())]) {
        Err(TranscribeError::UnsupportedFormat(m)) => {
            assert_eq!(m, "file not in allowed directories: a.wav")
        }
        _ => panic!("expected a refusal"),
    }
}

#[test]
fn rendered_record_is_listable() {
    let rec = meeting_record(
        "[0:00] hello there",
        ContentType::Meeting,
        Some("Standup"),
        None,
        None,
        OutputStatus::TranscriptOnly,
        44,
    );
    let md = render_record(&rec, "2026-03-01T10:00:00+00:00", "[0:00] hello there\n");
    assert_eq!(
        md,
        "---\ntitle: Standup\ntype: meeting\ndate: 2026-03-01T10:00:00+00:00\nduration: 0s\nstatus: transcript-only\n---\n\n## Transcript\n\n[0:00] hello there\n"
    );
    assert_eq!(extract_title(&md), Some("Standup".to_string()));
    assert_eq!(extract_type(&md), Some("meeting".to_string()));
}

#[test]
fn clean_stats_never_grow() {
    let mut t = String::new();
    for i in 0..6 {
        t.push_str(&format!("[0:0{}] same words here\n", i));
    }
    for i in 0..6 {
        t.push_str(&format!("[1:0{}] [music]\n", i));
    }
    let (_, stats) = clean_transcript(&t);
    assert!(stats.original_lines >= stats.after_consecutive_dedup);
    assert!(stats.after_consecutive_dedup >= stats.after_interleaved_dedup);
    assert!(stats.after_interleaved_dedup >= stats.after_trailing_trim);
    assert_eq!(stats.lines_removed, stats.original_lines - stats.after_trailing_trim);
}

#[test]
fn generated_titles_fit() {
    let long = "[0:00] ".to_string() + &"word ".repeat(40);
    assert!(generate_title(&long, None).chars().count() <= 60);
    assert_eq!(generate_title("", None), "Untitled Recording");
}

#[test]
fn record_files_are_named_by_day_and_title() {
    assert_eq!(record_directory("/m", ContentType::Memo), "/m/memos");
    assert_eq!(record_directory("/m", ContentType::Meeting), "/m");
    let date = "2026-03-17T10:00:00+01:00";
    assert_eq!(record_file_name("Q2 Pricing Review", date, 1), "2026-03-17-q2-pricing-review.md");
    assert_eq!(record_file_name("Q2 Pricing Review", date, 2), "2026-03-17-q2-pricing-review-2.md");
    assert_eq!(record_file_name("!!!", date, 1), "2026-03-17-untitled.md");
    assert_eq!(record_file_name("x", "today", 1), "today-x.md");
}
