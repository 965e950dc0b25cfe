//! Settings that the pipeline's decisions read.
use vstd::prelude::*;

verus! {

/// Whisper model selection and transcription thresholds.
pub struct TranscriptionConfig {
    pub model: String,
    /// Directory holding the model files.
    pub model_path: String,
    pub min_words: usize,
    pub language: Option<String>,
    /// Silero VAD model name; empty disables integrated VAD.
    pub vad_model: String,
    pub noise_reduction: bool,
}

/// Model used for dictation.
pub struct DictationConfig {
    pub model: String,
}

/// Which LLM engine summarizes, and how.
pub struct SummarizationConfig {
    /// "none", "agent", "anthropic", "openai", "mistral" or "ollama".
    pub engine: String,
    /// The agent CLI that reads a prompt on standard input; it must be
    /// configured for the "agent" engine.
    pub agent_command: String,
    pub chunk_max_tokens: usize,
    pub ollama_url: String,
    pub ollama_model: String,
    pub mistral_model: String,
    /// The Anthropic model; it must be configured for the "anthropic" engine.
    pub anthropic_model: String,
}

/// Which speaker diarization engine runs: "none" or "pyannote".
pub struct DiarizationConfig {
    pub engine: String,
}

pub struct ScreenContextConfig {
    pub keep_after_summary: bool,
}

pub struct SecurityConfig {
    /// Directories that audio files must lie in; empty allows any.
    pub allowed_audio_dirs: Vec<String>,
}

/// The whole configuration.  Paths starting with `~/` are relative to the
/// user's home directory.
pub struct Config {
    pub output_dir: String,
    pub transcription: TranscriptionConfig,
    pub dictation: DictationConfig,
    pub summarization: SummarizationConfig,
    pub diarization: DiarizationConfig,
    pub screen_context: ScreenContextConfig,
    pub security: SecurityConfig,
}

impl Default for Config {
    /// Compiled-in defaults: summarization and diarization are off.
    fn default() -> (r: Self)
        ensures
            r.output_dir@ == "~/meetings"@,
            r.transcription.model@ == "small"@,
            r.transcription.model_path@ == "~/.minutes/models"@,
            r.transcription.min_words == 3,
            r.transcription.language matches Some(l) && l@ == "en"@,
            r.transcription.vad_model@ == "silero-v6.2.0"@,
            !r.transcription.noise_reduction,
            r.dictation.model@ == "base"@,
            r.summarization.engine@ == "none"@,
            r.summarization.agent_command@.len() == 0,
            r.summarization.chunk_max_tokens == 4000,
            r.summarization.ollama_url@ == "http://localhost:11434"@,
            r.summarization.ollama_model@ == "llama3.2"@,
            r.summarization.mistral_model@ == "mistral-large-latest"@,
            r.summarization.anthropic_model@.len() == 0,
            r.diarization.engine@ == "none"@,
            !r.screen_context.keep_after_summary,
            r.security.allowed_audio_dirs@.len() == 0,
    {
        Config {
            output_dir: String::from_str("~/meetings"),
            transcription: TranscriptionConfig {
                model: String::from_str("small"),
                model_path: String::from_str("~/.minutes/models"),
                min_words: 3,
                language: Some(String::from_str("en")),
                vad_model: String::from_str("silero-v6.2.0"),
                noise_reduction: false,
            },
            dictation: DictationConfig { model: String::from_str("base") },
            summarization: SummarizationConfig {
                engine: String::from_str("none"),
                agent_command: String::new(),
                chunk_max_tokens: 4000,
                ollama_url: String::from_str("http://localhost:11434"),
                ollama_model: String::from_str("llama3.2"),
                mistral_model: String::from_str("mistral-large-latest"),
                anthropic_model: String::new(),
            },
            diarization: DiarizationConfig { engine: String::from_str("none") },
            screen_context: ScreenContextConfig { keep_after_summary: false },
            security: SecurityConfig { allowed_audio_dirs: Vec::new() },
        }
    }
}

} // verus!
