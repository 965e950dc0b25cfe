use minutes_core::config::Config;
use minutes_core::engines::{api_call, choose_agent_path, reply_text, resolve_agent_path, WireFormat};
use minutes_core::summary::{LlmRequest, SummaryEngine, SYSTEM_PROMPT};

fn chunk(engine: SummaryEngine, text: &str) -> LlmRequest {
    LlmRequest::Chunk { engine, index: 0, total: 1, text: text.to_string(), screens: vec![] }
}

#[test]
fn openai_chunk_uses_vision_model_only_with_images() {
    let config = Config::default();
    let plain = api_call(&chunk(SummaryEngine::OpenAi, "hello"), &config.summarization, false).unwrap();
    assert_eq!(plain.format, WireFormat::Chat);
    assert_eq!(plain.url, "https://api.openai.com/v1/chat/completions");
    assert_eq!(plain.model, "gpt-4o-mini");
    assert_eq!(plain.text, "Summarize this transcript:\n\nhello");
    assert_eq!(plain.system, SYSTEM_PROMPT);
    assert_eq!(plain.max_tokens, Some(1024));
    assert!(plain.parts);
    assert!(!plain.images);
    assert_eq!(plain.image_note, "");
    assert!(!plain.text_required);
    assert_eq!(plain.key_var, "OPENAI_API_KEY");
    assert_eq!(plain.key_missing, "OPENAI_API_KEY not set. Export it or switch to engine = \"ollama\"");

    let seen = api_call(&chunk(SummaryEngine::OpenAi, "hello"), &config.summarization, true).unwrap();
    assert_eq!(seen.model, "gpt-4o");
    assert!(seen.images);
    assert_eq!(
        seen.image_note,
        "The images above show what was on screen during this meeting. Use them for context.\n\n"
    );
}

#[test]
fn ollama_chunk_is_one_prompt_without_key() {
    let config = Config::default();
    let call = api_call(&chunk(SummaryEngine::Ollama, "notes"), &config.summarization, true).unwrap();
    assert_eq!(call.format, WireFormat::Generate);
    assert_eq!(call.url, "http://localhost:11434/api/generate");
    assert_eq!(call.model, "llama3.2");
    assert_eq!(call.text, format!("{}\n\nSummarize this transcript:\n\nnotes", SYSTEM_PROMPT));
    assert_eq!(call.system, "");
    assert_eq!(call.key_var, "");
    assert_eq!(call.key_missing, "");
    assert!(!call.images);
    assert_eq!(call.max_tokens, None);
}

#[test]
fn anthropic_needs_a_configured_model() {
    let mut config = Config::default();
    let err = api_call(&chunk(SummaryEngine::Anthropic, "x"), &config.summarization, false).err().unwrap();
    assert_eq!(err, "no Anthropic model configured: set [summarization] anthropic_model in config.toml");

    config.summarization.anthropic_model = "model-a".to_string();
    let call = api_call(&chunk(SummaryEngine::Anthropic, "x"), &config.summarization, true).unwrap();
    assert_eq!(call.format, WireFormat::Messages);
    assert_eq!(call.url, "https://api.anthropic.com/v1/messages");
    assert_eq!(call.model, "model-a");
    assert_eq!(call.key_var, "ANTHROPIC_API_KEY");
    assert!(call.text_required);
    assert_eq!(
        call.image_note,
        "The images above show what was on screen during this meeting. Use them for context when speakers reference visual content.\n\n"
    );
}

#[test]
fn combining_is_for_anthropic_and_mistral() {
    let config = Config::default();
    let q = LlmRequest::Combine { engine: SummaryEngine::Mistral, summaries: "a\n\n---\n\nb".to_string() };
    let call = api_call(&q, &config.summarization, false).unwrap();
    assert_eq!(call.url, "https://api.mistral.ai/v1/chat/completions");
    assert_eq!(call.model, "mistral-large-latest");
    assert_eq!(call.text, "Combine these summaries:\n\na\n\n---\n\nb");
    assert_eq!(
        call.system,
        "Combine these partial meeting summaries into a single cohesive summary. Use the same KEY POINTS / DECISIONS / ACTION ITEMS format."
    );
    assert!(!call.parts);

    let q = LlmRequest::Combine { engine: SummaryEngine::OpenAi, summaries: "a".to_string() };
    assert_eq!(api_call(&q, &config.summarization, false).err().unwrap(), "this engine does not combine summaries");
}

#[test]
fn speaker_mappings_are_short_bare_requests() {
    let config = Config::default();
    let q = LlmRequest::Mapping { engine: SummaryEngine::OpenAi, prompt: "who?".to_string() };
    let call = api_call(&q, &config.summarization, true).unwrap();
    assert_eq!(call.model, "gpt-4o-mini");
    assert_eq!(call.text, "who?");
    assert_eq!(call.system, "");
    assert_eq!(call.max_tokens, Some(256));
    assert!(call.text_required);
    assert!(!call.images);
    assert_eq!(call.key_missing, "OPENAI_API_KEY not set");

    let q = LlmRequest::Mapping { engine: SummaryEngine::Agent, prompt: "who?".to_string() };
    assert_eq!(api_call(&q, &config.summarization, false).err().unwrap(), "a whole prompt goes to an agent");
    let q = LlmRequest::Prompt("p".to_string());
    assert!(api_call(&q, &config.summarization, false).is_err());
}

#[test]
fn reply_without_text_fails_only_where_text_is_required() {
    let config = Config::default();
    let chat = api_call(&chunk(SummaryEngine::Mistral, "t"), &config.summarization, false).unwrap();
    assert_eq!(reply_text(&chat, None), Ok(String::new()));
    assert_eq!(reply_text(&chat, Some("S".to_string())), Ok("S".to_string()));
    let q = LlmRequest::Mapping { engine: SummaryEngine::Ollama, prompt: "p".to_string() };
    let mapping = api_call(&q, &config.summarization, false).unwrap();
    assert_eq!(reply_text(&mapping, None), Err("No text in response".to_string()));
}

#[test]
fn agent_path_prefers_absolute_then_which_then_install_dirs() {
    let none = [false; 6];
    assert_eq!(choose_agent_path("/opt/agent", Some("/x/agent\n".to_string()), "/home/u", &none), "/opt/agent");
    assert_eq!(choose_agent_path("codex", Some("  /x/codex\n".to_string()), "/home/u", &none), "/x/codex");
    assert_eq!(choose_agent_path("codex", Some(" \n".to_string()), "/home/u", &none), "codex");
    let local = [false, true, false, true, false, false];
    assert_eq!(choose_agent_path("codex", None, "/home/u", &local), "/home/u/.local/bin/codex");
    let system = [false, false, false, false, false, true];
    assert_eq!(choose_agent_path("codex", None, "/home/u/", &system), "/usr/bin/codex");
}

#[test]
fn agent_path_falls_back_to_the_bare_name() {
    assert_eq!(resolve_agent_path("/bin/sh", None, "/nonexistent-home"), "/bin/sh");
    assert_eq!(resolve_agent_path("tool", Some("/found/tool\n".to_string()), "/nonexistent-home"), "/found/tool");
    assert_eq!(
        resolve_agent_path("no-such-agent-anywhere-7", None, "/nonexistent-home"),
        "no-such-agent-anywhere-7"
    );
}
