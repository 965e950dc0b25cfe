use minutes_core::config::Config;
use minutes_core::pipeline::{
    process, process_with_progress, ContentType, PipelineError, PipelineServices, PipelineStage,
};
use minutes_core::steps::{DiarizeRequest, MeasureRequest};
use minutes_core::summary::LlmRequest;
use minutes_core::transcribe::{LoadRequest, TranscribeBackend, TranscribeError, WhisperRequest, WhisperSegment};
use std::cell::RefCell;

struct Speech(Vec<(u64, &'static str)>);

impl TranscribeBackend for Speech {
    type Samples = usize;

    fn load(&self, _request: &LoadRequest) -> Result<usize, TranscribeError> {
        Ok(16000)
    }

    fn sample_count(&self, samples: &usize) -> usize {
        *samples
    }

    fn denoise(&self, samples: usize) -> usize {
        samples
    }

    fn strip_silence(&self, samples: usize) -> usize {
        samples
    }

    fn run_whisper(&self, _samples: &usize, _request: &WhisperRequest) -> Result<Vec<WhisperSegment>, TranscribeError> {
        Ok(self
            .0
            .iter()
            .map(|(t, s)| WhisperSegment { start_cs: *t, text: s.to_string(), no_speech: false })
            .collect())
    }
}

struct Desk {
    size: u64,
    context: Option<String>,
    written: RefCell<Vec<(String, String)>>,
    asked: RefCell<Vec<String>>,
    measured: RefCell<Vec<String>>,
}

impl PipelineServices for Desk {
    fn measure(&self, request: &MeasureRequest) -> (Result<u64, String>, Option<String>) {
        self.measured.borrow_mut().push(request.path.clone());
        (Ok(self.size), Some(request.path.clone()))
    }

    fn canonical(&self, path: &str) -> Option<String> {
        Some(path.to_string())
    }

    fn diarize(&self, _request: &DiarizeRequest) -> Option<String> {
        None
    }

    fn user_notes(&self) -> Option<String> {
        None
    }

    fn pre_context(&self) -> Option<String> {
        self.context.clone()
    }

    fn home_dir(&self) -> String {
        "/home/tester".to_string()
    }

    fn list_dir(&self, _dir: &str) -> Option<Vec<String>> {
        None
    }

    fn ask(&self, request: LlmRequest) -> Result<String, String> {
        match request {
            LlmRequest::Prompt(p) => {
                self.asked.borrow_mut().push(p);
                Ok("ACTION ITEMS:\n- @ana: Book the room by Monday".to_string())
            }
            _ => Err("unexpected request".to_string()),
        }
    }

    fn now(&self) -> String {
        "2026-03-01T09:00:00+00:00".to_string()
    }

    fn write_record(
        &self,
        _content_type: ContentType,
        title: &str,
        _date: &str,
        markdown: &str,
    ) -> Result<String, String> {
        self.written.borrow_mut().push((title.to_string(), markdown.to_string()));
        Ok(format!("/out/{}.md", title))
    }

    fn remove_dir(&self, _dir: &str) -> bool {
        true
    }
}

fn desk(size: u64) -> Desk {
    Desk { size, context: None, written: RefCell::new(vec![]), asked: RefCell::new(vec![]), measured: RefCell::new(vec![]) }
}

fn no_vad() -> Config {
    let mut config = Config::default();
    config.transcription.vad_model = String::new();
    config.transcription.model_path = "/tmp/no-such-dir".into();
    config
}

#[test]
fn process_needs_a_model() {
    let config = no_vad();
    let audio = Speech(vec![(0, "hello")]);
    let r = process("/rec/a.wav", ContentType::Memo, None, &config, &audio, &desk(100));
    assert!(matches!(r, Err(PipelineError::Transcribe(TranscribeError::ModelNotFound(_)))));
}

#[test]
fn process_refuses_empty_files() {
    let config = no_vad();
    let audio = Speech(vec![]);
    let services = desk(0);
    let r = process("/rec/a.wav", ContentType::Memo, None, &config, &audio, &services);
    assert!(matches!(r, Err(PipelineError::Transcribe(TranscribeError::EmptyAudio))));
    assert_eq!(*services.measured.borrow(), vec!["/rec/a.wav".to_string()]);
}

#[test]
fn process_saves_a_summarized_record() {
    let mut config = no_vad();
    // A model named by an existing path is used as it is.
    config.transcription.model = "/".into();
    config.summarization.engine = "agent".into();
    let audio = Speech(vec![(0, "let's discuss the offsite"), (500, "we need a room")]);
    let services = desk(64_044);
    let stages = RefCell::new(Vec::new());
    let r = process_with_progress(
        "/rec/a.wav",
        ContentType::Meeting,
        None,
        &config,
        &audio,
        &services,
        |s| stages.borrow_mut().push(s),
    )
    .ok()
    .expect("processed");
    assert_eq!(r.title, "The Offsite");
    assert_eq!(r.word_count, 10);
    assert_eq!(r.path, "/out/The Offsite.md");
    assert_eq!(
        *stages.borrow(),
        vec![PipelineStage::Transcribing, PipelineStage::Summarizing, PipelineStage::Saving]
    );
    assert!(services.asked.borrow()[0].ends_with("[0:00] let's discuss the offsite\n[0:05] we need a room\n"));
    let written = services.written.borrow();
    let md = &written[0].1;
    assert!(md.starts_with("---\ntitle: The Offsite\ntype: meeting\n"));
    assert!(md.contains("people: Ana"));
    assert!(md.contains("- [ ] @ana: Book the room by Monday"));
}
