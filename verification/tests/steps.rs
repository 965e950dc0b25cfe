use minutes_core::config::Config;
use minutes_core::pipeline::{ContentType, PipelineError, PipelineStage};
use minutes_core::steps::{pipeline_step, PipelineEvent, PipelineState, Work};
use minutes_core::transcribe::{after_decode, before_whisper, TranscribeError};

fn measured(size: u64) -> PipelineEvent {
    PipelineEvent::Measured { size: Ok(size), canonical: Some("/rec/a.wav".into()), allowed: vec![] }
}

#[test]
fn empty_file_fails_before_any_stage() {
    let config = Config::default();
    let (s, a) = pipeline_step("/rec/a.wav", ContentType::Memo, None, &config, PipelineState::Start, PipelineEvent::Begin);
    assert!(matches!(s, PipelineState::Measuring));
    assert!(a.report.is_none() && matches!(&a.work, Work::Measure(q) if q.path == "/rec/a.wav"));
    let (s, a) = pipeline_step("/rec/a.wav", ContentType::Memo, None, &config, s, measured(0));
    assert!(matches!(s, PipelineState::Done));
    assert!(a.report.is_none());
    assert!(matches!(a.work, Work::Finish(Err(PipelineError::Transcribe(TranscribeError::EmptyAudio)))));
}

#[test]
fn stages_of_a_summarized_meeting() {
    let mut config = Config::default();
    config.summarization.engine = "ollama".into();
    config.diarization.engine = "pyannote".into();
    let ct = ContentType::Meeting;
    let title = Some("Weekly sync");
    let mut reports = Vec::new();
    let (s, a) = pipeline_step("/rec/a.wav", ct, title, &config, PipelineState::Start, PipelineEvent::Begin);
    let (s, a) = pipeline_step("/rec/a.wav", ct, title, &config, s, measured(1000));
    reports.extend(a.report);
    assert!(matches!(&a.work, Work::Transcribe(p) if p == "/rec/a.wav"));
    let (s, a) = pipeline_step("/rec/a.wav", ct, title, &config, s, PipelineEvent::Transcribed(Ok("[0:00] hello there\n".into())));
    reports.extend(a.report);
    assert!(matches!(&a.work, Work::Diarize(q) if q.transcript == "[0:00] hello there\n" && q.audio_path == "/rec/a.wav"));
    let (s, a) = pipeline_step("/rec/a.wav", ct, title, &config, s, PipelineEvent::Diarized(None));
    reports.extend(a.report);
    assert!(matches!(a.work, Work::Gather));
    let gathered = PipelineEvent::Gathered {
        notes: Some("pricing".into()),
        context: None,
        screen_dir: "/s".into(),
        screens: vec![],
    };
    let (s, a) = pipeline_step("/rec/a.wav", ct, title, &config, s, gathered);
    reports.extend(a.report);
    match &a.work {
        Work::Summarize { text, screens } => {
            assert!(screens.is_empty());
            assert!(text.ends_with("\n\nTRANSCRIPT:\n[0:00] hello there\n"));
            assert!(text.contains("pricing"));
        }
        _ => panic!("expected a summary request"),
    }
    let (s, a) = pipeline_step("/rec/a.wav", ct, title, &config, s, PipelineEvent::Summarized(None));
    reports.extend(a.report);
    match &a.work {
        Work::Save { title, transcript, summary, size, .. } => {
            assert_eq!(title, "Weekly sync");
            assert_eq!(transcript, "[0:00] hello there\n");
            assert!(summary.is_none());
            assert_eq!(*size, 1000);
        }
        _ => panic!("expected saving"),
    }
    let (s, a) = pipeline_step("/rec/a.wav", ct, title, &config, s, PipelineEvent::Saved(Ok("/m/x.md".into())));
    assert!(matches!(s, PipelineState::Done));
    match a.work {
        Work::Finish(Ok(w)) => {
            assert_eq!(w.path, "/m/x.md");
            assert_eq!(w.title, "Weekly sync");
            assert_eq!(w.word_count, 3);
        }
        _ => panic!("expected the result"),
    }
    assert_eq!(
        reports,
        vec![PipelineStage::Transcribing, PipelineStage::Diarizing, PipelineStage::Summarizing, PipelineStage::Saving]
    );
}

#[test]
fn memo_without_summarizer_saves_after_gathering() {
    let config = Config::default();
    let (s, _) = pipeline_step("/rec/a.wav", ContentType::Memo, None, &config, PipelineState::Start, PipelineEvent::Begin);
    let (s, _) = pipeline_step("/rec/a.wav", ContentType::Memo, None, &config, s, measured(10));
    let (s, a) = pipeline_step("/rec/a.wav", ContentType::Memo, None, &config, s, PipelineEvent::Transcribed(Ok("[0:00] idea about onboarding\n".into())));
    assert!(a.report.is_none() && matches!(a.work, Work::Gather));
    let gathered = PipelineEvent::Gathered { notes: None, context: None, screen_dir: "/s".into(), screens: vec!["/s/a.png".into()] };
    let (s, a) = pipeline_step("/rec/a.wav", ContentType::Memo, None, &config, s, gathered);
    assert_eq!(a.report, Some(PipelineStage::Saving));
    assert!(matches!(&a.work, Work::Save { title, .. } if title == "Idea About Onboarding"));
    let (s, a) = pipeline_step("/rec/a.wav", ContentType::Memo, None, &config, s, PipelineEvent::Saved(Ok("/m/y.md".into())));
    assert!(matches!(&a.work, Work::RemoveScreens(d) if d == "/s"));
    let (s, a) = pipeline_step("/rec/a.wav", ContentType::Memo, None, &config, s, PipelineEvent::Cleaned);
    assert!(matches!(s, PipelineState::Done));
    assert!(matches!(a.work, Work::Finish(Ok(_))));
}

#[test]
fn unexpected_event_ends_processing() {
    let config = Config::default();
    let (s, a) = pipeline_step("/rec/a.wav", ContentType::Memo, None, &config, PipelineState::Start, PipelineEvent::Cleaned);
    assert!(matches!(s, PipelineState::Done));
    assert!(matches!(a.work, Work::Finish(Err(PipelineError::Io(m))) if m == "unexpected event"));
}

#[test]
fn decoded_audio_decisions() {
    let mut config = Config::default();
    assert!(matches!(after_decode(0, &config, false), Err(TranscribeError::EmptyAudio)));
    let plan = after_decode(16000, &config, false).unwrap();
    assert!(!plan.denoise && plan.strip_silence);
    config.transcription.noise_reduction = true;
    let plan = after_decode(16000, &config, true).unwrap();
    assert!(plan.denoise && !plan.strip_silence);
    assert!(matches!(before_whisper(0), Err(TranscribeError::EmptyAudio)));
    assert!(before_whisper(1).is_ok());
}
