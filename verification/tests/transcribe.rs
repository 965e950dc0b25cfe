use minutes_core::config::{Config, TranscriptionConfig};
use minutes_core::transcribe::{
    choose_vad_model_path,
    assemble_transcript, audio_extension, audio_kind, choose_model_path, path_join_exec,
    resolve_model_path, resolve_model_path_for_dictation, resolve_vad_model_path, segment_line,
    transcribe, transcribe_step, whisper_transcript, AudioKind, DecodePlan, LoadRequest, TranscribeEvent,
    TranscribeState, TranscribeWork, TranscribeBackend, TranscribeError, WhisperRequest, WhisperSegment,
};

#[test]
fn resolve_model_path_returns_error_for_missing() {
    let config = Config {
        transcription: TranscriptionConfig {
            model: "nonexistent".into(),
            model_path: "/tmp/no-such-dir".into(),
            min_words: 10,
            language: Some("en".into()),
            vad_model: String::new(),
            noise_reduction: false,
        },
        ..Config::default()
    };
    let result = resolve_model_path(&config);
    assert!(result.is_err());
    let err = result.unwrap_err().to_string();
    assert!(
        err.contains("minutes setup --model tiny"),
        "error should tell user how to fix it: {}",
        err
    );
    assert!(
        err.contains("ggml-nonexistent.bin"),
        "error should include expected model filename: {}",
        err
    );
    assert!(
        err.contains("/tmp/no-such-dir"),
        "error should include the model directory: {}",
        err
    );
}

#[test]
fn dictation_model_missing_names_its_file() {
    let mut config = Config::default();
    config.transcription.model_path = "/tmp/no-such-dir".into();
    config.dictation.model = "tiny".into();
    let err = resolve_model_path_for_dictation(&config).unwrap_err().to_string();
    assert!(err.contains("ggml-tiny.bin"));
}

#[test]
fn model_candidates_are_tried_in_order() {
    let p = choose_model_path("/m", "base", &[false, true, true, false]).unwrap();
    assert_eq!(p, "/m/whisper-base.bin");
    let p = choose_model_path("/m/", "base", &[true, true, true, true]).unwrap();
    assert_eq!(p, "/m/ggml-base.bin");
    let p = choose_model_path("/m", "/abs/model.bin", &[false, false, false, true]).unwrap();
    assert_eq!(p, "/abs/model.bin");
    assert!(choose_model_path("/m", "x", &[false, false, false, false]).is_err());
}

#[test]
fn path_joining() {
    let j: String = path_join_exec(&['a', 'b'], &['c']).into_iter().collect();
    assert_eq!(j, "ab/c");
    let j: String = path_join_exec(&['a', '/'], &['c']).into_iter().collect();
    assert_eq!(j, "a/c");
    let j: String = path_join_exec(&['a'], &['/', 'c']).into_iter().collect();
    assert_eq!(j, "/c");
}

#[test]
fn vad_disabled_when_unnamed() {
    let mut config = Config::default();
    config.transcription.vad_model = String::new();
    assert_eq!(resolve_vad_model_path(&config), None);
    config.transcription.vad_model = "silero-test".into();
    config.transcription.model_path = "/tmp/no-such-dir".into();
    assert_eq!(resolve_vad_model_path(&config), None);
}

#[test]
fn audio_kinds() {
    assert_eq!(audio_kind("WAV").ok(), Some(AudioKind::Wav));
    assert_eq!(audio_kind("m4a").ok(), Some(AudioKind::Compressed));
    match audio_kind("XYZ") {
        Err(TranscribeError::UnsupportedFormat(s)) => assert_eq!(s, "xyz"),
        _ => panic!("expected an unsupported format"),
    }
}

#[test]
fn extensions_of_paths() {
    assert_eq!(audio_extension("/a/b/talk.Mp3"), "Mp3");
    assert_eq!(audio_extension("/a/.hidden"), "");
    assert_eq!(audio_extension("/a/archive.tar.gz"), "gz");
    assert_eq!(audio_extension("noext"), "");
}

#[test]
fn segment_lines_format() {
    assert_eq!(segment_line(6_550, "  hi there "), Some("[1:05] hi there".to_string()));
    assert_eq!(segment_line(0, "   "), None);
    assert_eq!(segment_line(61_000, "x"), Some("[10:10] x".to_string()));
}

#[test]
fn assembled_transcript_ends_with_newline() {
    let lines = vec!["[0:00] a".to_string(), "[0:01] b".to_string()];
    assert_eq!(assemble_transcript(&lines), "[0:00] a\n[0:01] b\n");
    assert_eq!(assemble_transcript(&[]), "");
}

#[test]
fn whisper_segments_filtered() {
    let segs = vec![
        WhisperSegment { start_cs: 0, text: " Hello ".into(), no_speech: false },
        WhisperSegment { start_cs: 300, text: "noise".into(), no_speech: true },
        WhisperSegment { start_cs: 500, text: "  ".into(), no_speech: false },
        WhisperSegment { start_cs: 700, text: "World".into(), no_speech: false },
    ];
    assert_eq!(whisper_transcript(&segs), "[0:00] Hello\n[0:07] World\n");
}

struct FakeAudio {
    samples: usize,
    after_strip: usize,
}

impl TranscribeBackend for FakeAudio {
    type Samples = usize;

    fn load(&self, _request: &LoadRequest) -> Result<usize, TranscribeError> {
        Ok(self.samples)
    }

    fn sample_count(&self, samples: &usize) -> usize {
        *samples
    }

    fn denoise(&self, samples: usize) -> usize {
        samples
    }

    fn strip_silence(&self, _samples: usize) -> usize {
        self.after_strip
    }

    fn run_whisper(&self, _samples: &usize, _request: &WhisperRequest) -> Result<Vec<WhisperSegment>, TranscribeError> {
        Ok(vec![WhisperSegment { start_cs: 0, text: "hi".into(), no_speech: false }])
    }
}

#[test]
fn load_audio_rejects_unknown_extension() {
    let config = Config::default();
    let backend = FakeAudio { samples: 10, after_strip: 10 };
    match transcribe("/tmp/test.xyz", &config, &backend) {
        Err(e) => assert!(e.to_string().contains("xyz")),
        Ok(_) => panic!("expected an error"),
    }
}

#[test]
fn transcribe_rejects_empty_audio() {
    let mut config = Config::default();
    config.transcription.vad_model = String::new();
    let backend = FakeAudio { samples: 0, after_strip: 0 };
    assert!(matches!(transcribe("/tmp/a.wav", &config, &backend), Err(TranscribeError::EmptyAudio)));
    let backend = FakeAudio { samples: 5, after_strip: 0 };
    assert!(matches!(transcribe("/tmp/a.wav", &config, &backend), Err(TranscribeError::EmptyAudio)));
}

#[test]
fn transcribe_needs_a_model() {
    let mut config = Config::default();
    config.transcription.vad_model = String::new();
    config.transcription.model_path = "/tmp/no-such-dir".into();
    config.transcription.model = "nonexistent".into();
    let backend = FakeAudio { samples: 5, after_strip: 5 };
    assert!(matches!(
        transcribe("/tmp/a.wav", &config, &backend),
        Err(TranscribeError::ModelNotFound(_))
    ));
}

#[test]
fn vad_model_choice_follows_candidate_order() {
    let silero = [false, true, true, true];
    assert_eq!(choose_vad_model_path("/m", "silero-v6", &silero), Some("/m/silero-v6.bin".to_string()));
    let only_old = [false, false, true, false];
    assert_eq!(choose_vad_model_path("/m", "silero-v6", &only_old), Some("/m/ggml-silero-vad.bin".to_string()));
    let named = [false, false, false, true];
    assert_eq!(choose_vad_model_path("/m", "silero-v6", &named), Some("silero-v6".to_string()));
    assert_eq!(choose_vad_model_path("/m", "other", &[false, false, false]), None);
    assert_eq!(choose_vad_model_path("/m", "other", &[true, false, false]), Some("/m/ggml-other.bin".to_string()));
    assert_eq!(choose_vad_model_path("/m", "", &[true, true, true]), None);
}

/// Audio whose denoising leaves nothing, so that whether denoising ran shows.
struct SilencedByDenoise;

impl TranscribeBackend for SilencedByDenoise {
    type Samples = usize;

    fn load(&self, _request: &LoadRequest) -> Result<usize, TranscribeError> {
        Ok(8)
    }

    fn sample_count(&self, samples: &usize) -> usize {
        *samples
    }

    fn denoise(&self, _samples: usize) -> usize {
        0
    }

    fn strip_silence(&self, samples: usize) -> usize {
        samples
    }

    fn run_whisper(&self, _samples: &usize, _request: &WhisperRequest) -> Result<Vec<WhisperSegment>, TranscribeError> {
        Ok(vec![])
    }
}

#[test]
fn denoising_runs_only_when_configured() {
    let mut config = Config::default();
    config.transcription.vad_model = String::new();
    config.transcription.model_path = "/tmp/no-such-dir".into();
    config.transcription.model = "nonexistent".into();
    config.transcription.noise_reduction = true;
    assert!(matches!(transcribe("/tmp/a.wav", &config, &SilencedByDenoise), Err(TranscribeError::EmptyAudio)));
    config.transcription.noise_reduction = false;
    assert!(matches!(
        transcribe("/tmp/a.wav", &config, &SilencedByDenoise),
        Err(TranscribeError::ModelNotFound(_))
    ));
}

#[test]
fn transcribe_steps_hand_on_their_arguments() {
    let mut config = Config::default();
    config.transcription.noise_reduction = true;
    config.transcription.language = Some("de".into());
    let (s, w) = transcribe_step("/rec/A.MP3", &config, TranscribeState::Start, TranscribeEvent::Begin);
    assert!(matches!(&w, TranscribeWork::Load(q) if q.path == "/rec/A.MP3" && q.kind == AudioKind::Compressed));
    let (s, w) = transcribe_step("/rec/A.MP3", &config, s, TranscribeEvent::Loaded(Ok(100)));
    assert!(matches!(w, TranscribeWork::FindVad));
    let (s, w) = transcribe_step("/rec/A.MP3", &config, s, TranscribeEvent::VadFound(Some("/m/vad.bin".into())));
    assert!(matches!(w, TranscribeWork::Prepare(DecodePlan { denoise: true, strip_silence: false })));
    let (s, w) = transcribe_step("/rec/A.MP3", &config, s, TranscribeEvent::Prepared(90));
    assert!(matches!(w, TranscribeWork::FindModel));
    let (s, w) = transcribe_step("/rec/A.MP3", &config, s, TranscribeEvent::ModelFound(Ok("/m/ggml-small.bin".into())));
    match &w {
        TranscribeWork::Whisper(q) => {
            assert_eq!(q.model_path, "/m/ggml-small.bin");
            assert_eq!(q.vad_model_path.as_deref(), Some("/m/vad.bin"));
            assert_eq!(q.language.as_deref(), Some("de"));
        }
        _ => panic!("expected whisper to run"),
    }
    let segs = vec![WhisperSegment { start_cs: 6100, text: " hallo ".into(), no_speech: false }];
    let (s, w) = transcribe_step("/rec/A.MP3", &config, s, TranscribeEvent::Whispered(Ok(segs)));
    assert!(matches!(s, TranscribeState::Done));
    assert!(matches!(&w, TranscribeWork::Finish(Ok(t)) if t == "[1:01] hallo\n"));
}

#[test]
fn transcribe_step_refuses_unknown_extension_and_empty_audio() {
    let config = Config::default();
    let (s, w) = transcribe_step("/rec/a.xyz", &config, TranscribeState::Start, TranscribeEvent::Begin);
    assert!(matches!(s, TranscribeState::Done));
    assert!(matches!(&w, TranscribeWork::Finish(Err(TranscribeError::UnsupportedFormat(x))) if x == "xyz"));
    let (s, _) = transcribe_step("/rec/a.wav", &config, TranscribeState::Start, TranscribeEvent::Begin);
    let (_, w) = transcribe_step("/rec/a.wav", &config, s, TranscribeEvent::Loaded(Ok(0)));
    assert!(matches!(w, TranscribeWork::Finish(Err(TranscribeError::EmptyAudio))));
    let (_, w) = transcribe_step("/rec/a.wav", &config, TranscribeState::Whispering, TranscribeEvent::Prepared(3));
    assert!(matches!(w, TranscribeWork::Finish(Err(TranscribeError::Io(_)))));
}
