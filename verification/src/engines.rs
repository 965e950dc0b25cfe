//! How each summarization engine is reached: the HTTP call an API engine's
//! request becomes, what its reply yields, and where an agent CLI is found.
use vstd::prelude::*;
use crate::config::SummarizationConfig;
use crate::summary::{LlmRequest, RequestModel, SummaryEngine, SYSTEM_PROMPT, request_view};
use crate::text::{chars_of, opt_view, lit, push_all, starts_with, starts_with_chars, string_from, trim, trim_ws, views};
use crate::transcribe::{path_exists, path_join, path_join_exec};

verus! {

/// How a call's JSON body is laid out.
#[derive(Clone, Copy, PartialEq, Eq, Structural, Debug)]
pub enum WireFormat {
    /// Anthropic's messages API: the system prompt beside the messages.
    Messages,
    /// OpenAI-style chat completions: the system prompt as a first message.
    Chat,
    /// Ollama's generate API: one prompt, not streamed.
    Generate,
}

/// One HTTP call to a summarization API.
pub struct ApiCall {
    pub format: WireFormat,
    pub url: String,
    /// The environment variable holding the API key; empty when no key is sent.
    pub key_var: String,
    /// The error when that variable is not set.
    pub key_missing: String,
    pub model: String,
    /// The system prompt; empty when the call has none.
    pub system: String,
    /// The user's text (for `Generate`, the whole prompt).
    pub text: String,
    /// Whether the screenshots go in front of the text, followed by `image_note`.
    pub images: bool,
    pub image_note: String,
    /// Whether the user's content is a list of parts rather than a string.
    pub parts: bool,
    /// The most tokens the reply may take, where the format sends a limit.
    pub max_tokens: Option<u32>,
    /// Whether a reply without text is an error rather than an empty answer.
    pub text_required: bool,
}

/// An [`ApiCall`] as text.
pub struct CallModel {
    pub format: WireFormat,
    pub url: Seq<char>,
    pub key_var: Seq<char>,
    pub key_missing: Seq<char>,
    pub model: Seq<char>,
    pub system: Seq<char>,
    pub text: Seq<char>,
    pub images: bool,
    pub image_note: Seq<char>,
    pub parts: bool,
    pub max_tokens: Option<u32>,
    pub text_required: bool,
}

pub open spec fn call_view(c: ApiCall) -> CallModel {
    CallModel {
        format: c.format,
        url: c.url@,
        key_var: c.key_var@,
        key_missing: c.key_missing@,
        model: c.model@,
        system: c.system@,
        text: c.text@,
        images: c.images,
        image_note: c.image_note@,
        parts: c.parts,
        max_tokens: c.max_tokens,
        text_required: c.text_required,
    }
}

pub open spec fn anthropic_url() -> Seq<char> {
    "https://api.anthropic.com/v1/messages"@
}

pub open spec fn openai_url() -> Seq<char> {
    "https://api.openai.com/v1/chat/completions"@
}

pub open spec fn mistral_url() -> Seq<char> {
    "https://api.mistral.ai/v1/chat/completions"@
}

/// The system prompt of a request to combine partial summaries.
pub open spec fn combine_system() -> Seq<char> {
    "Combine these partial meeting summaries into a single cohesive summary. Use the same KEY POINTS / DECISIONS / ACTION ITEMS format."@
}

/// What follows the screenshots in a messages-API request.
pub open spec fn messages_image_note() -> Seq<char> {
    "The images above show what was on screen during this meeting. Use them for context when speakers reference visual content.\n\n"@
}

/// What follows the screenshots in a chat request.
pub open spec fn chat_image_note() -> Seq<char> {
    "The images above show what was on screen during this meeting. Use them for context.\n\n"@
}

/// The error for an Anthropic request without a configured model.
pub open spec fn no_anthropic_model() -> Seq<char> {
    "no Anthropic model configured: set [summarization] anthropic_model in config.toml"@
}

/// The error for a missing key: with a hint for summaries, bare for mappings.
pub open spec fn key_missing_for(var: Seq<char>, hinted: bool) -> Seq<char> {
    if hinted {
        var + " not set. Export it or switch to engine = \"ollama\""@
    } else {
        var + " not set"@
    }
}

pub open spec fn call(
    format: WireFormat,
    url: Seq<char>,
    key_var: Seq<char>,
    hinted: bool,
    model: Seq<char>,
    system: Seq<char>,
    text: Seq<char>,
    images: bool,
    image_note: Seq<char>,
    parts: bool,
    max_tokens: Option<u32>,
    text_required: bool,
) -> CallModel {
    CallModel {
        format,
        url,
        key_var,
        key_missing: if key_var.len() == 0 {
            seq![]
        } else {
            key_missing_for(key_var, hinted)
        },
        model,
        system,
        text,
        images,
        image_note: if images {
            image_note
        } else {
            seq![]
        },
        parts,
        max_tokens,
        text_required,
    }
}

/// The HTTP call that answers request `q` under settings `s`; `images`
/// says whether screenshots were read for it.
///
/// A chunk is sent as "Summarize this transcript:" and the chunk, with the
/// summarizer's system prompt and room for 1024 tokens; screenshots go in
/// front of it for Anthropic, OpenAI (which then uses `gpt-4o` over
/// `gpt-4o-mini`) and Mistral.  Ollama gets one prompt, the system prompt
/// first.  Partial summaries are combined by Anthropic and Mistral only, and
/// speaker mappings are sent bare with room for 256 tokens.  Anthropic
/// requests need a configured model; agents are not reached over HTTP.
pub open spec fn call_for(q: RequestModel, s: SummarizationConfig, images: bool) -> Result<CallModel, Seq<char>> {
    let ollama = s.ollama_url@ + "/api/generate"@;
    match q {
        RequestModel::Prompt(_) => Err("a whole prompt goes to an agent"@),
        RequestModel::Chunk { engine, text, .. } => {
            let t = "Summarize this transcript:\n\n"@ + text;
            match engine {
                SummaryEngine::Anthropic => if s.anthropic_model@.len() == 0 {
                    Err(no_anthropic_model())
                } else {
                    Ok(call(WireFormat::Messages, anthropic_url(), "ANTHROPIC_API_KEY"@, true,
                        s.anthropic_model@, SYSTEM_PROMPT@, t, images, messages_image_note(), true,
                        Some(1024u32), true))
                },
                SummaryEngine::OpenAi => Ok(call(WireFormat::Chat, openai_url(), "OPENAI_API_KEY"@, true,
                    if images { "gpt-4o"@ } else { "gpt-4o-mini"@ }, SYSTEM_PROMPT@, t, images,
                    chat_image_note(), true, Some(1024u32), false)),
                SummaryEngine::Mistral => Ok(call(WireFormat::Chat, mistral_url(), "MISTRAL_API_KEY"@, true,
                    s.mistral_model@, SYSTEM_PROMPT@, t, images, chat_image_note(), true,
                    Some(1024u32), false)),
                SummaryEngine::Ollama => Ok(call(WireFormat::Generate, ollama, seq![], true,
                    s.ollama_model@, seq![], SYSTEM_PROMPT@ + "\n\n"@ + t, false, seq![], false, None,
                    false)),
                SummaryEngine::Agent => Err("a whole prompt goes to an agent"@),
            }
        },
        RequestModel::Combine { engine, summaries } => {
            let t = "Combine these summaries:\n\n"@ + summaries;
            match engine {
                SummaryEngine::Anthropic => if s.anthropic_model@.len() == 0 {
                    Err(no_anthropic_model())
                } else {
                    Ok(call(WireFormat::Messages, anthropic_url(), "ANTHROPIC_API_KEY"@, true,
                        s.anthropic_model@, combine_system(), t, false, seq![], false,
                        Some(1024u32), true))
                },
                SummaryEngine::Mistral => Ok(call(WireFormat::Chat, mistral_url(), "MISTRAL_API_KEY"@, true,
                    s.mistral_model@, combine_system(), t, false, seq![], false, Some(1024u32),
                    false)),
                _ => Err("this engine does not combine summaries"@),
            }
        },
        RequestModel::Mapping { engine, prompt } => match engine {
            SummaryEngine::Anthropic => if s.anthropic_model@.len() == 0 {
                Err(no_anthropic_model())
            } else {
                Ok(call(WireFormat::Messages, anthropic_url(), "ANTHROPIC_API_KEY"@, false,
                    s.anthropic_model@, seq![], prompt, false, seq![], false, Some(256u32), true))
            },
            SummaryEngine::OpenAi => Ok(call(WireFormat::Chat, openai_url(), "OPENAI_API_KEY"@, false,
                "gpt-4o-mini"@, seq![], prompt, false, seq![], false, Some(256u32), true)),
            SummaryEngine::Mistral => Ok(call(WireFormat::Chat, mistral_url(), "MISTRAL_API_KEY"@, false,
                s.mistral_model@, seq![], prompt, false, seq![], false, Some(256u32), true)),
            SummaryEngine::Ollama => Ok(call(WireFormat::Generate, ollama, seq![], false,
                s.ollama_model@, seq![], prompt, false, seq![], false, None, true)),
            SummaryEngine::Agent => Err("a whole prompt goes to an agent"@),
        },
    }
}

pub open spec fn call_result_view(r: Result<ApiCall, String>) -> Result<CallModel, Seq<char>> {
    match r {
        Ok(c) => Ok(call_view(c)),
        Err(e) => Err(e@),
    }
}

fn text_of(v: Vec<char>) -> (s: String)
    ensures
        s@ == v@,
{
    string_from(&v)
}

fn cat(a: &str, b: &str) -> (s: String)
    ensures
        s@ == a@ + b@,
{
    let mut v = chars_of(a);
    push_all(&mut v, &chars_of(b));
    text_of(v)
}

fn key_missing_exec(var: &str, hinted: bool) -> (s: String)
    ensures
        s@ == key_missing_for(var@, hinted),
{
    if hinted {
        cat(var, " not set. Export it or switch to engine = \"ollama\"")
    } else {
        cat(var, " not set")
    }
}

fn make_call(
    format: WireFormat,
    url: String,
    key_var: &str,
    hinted: bool,
    model: String,
    system: String,
    text: String,
    images: bool,
    image_note: &str,
    parts: bool,
    max_tokens: Option<u32>,
    text_required: bool,
) -> (c: ApiCall)
    ensures
        call_view(c) == call(format, url@, key_var@, hinted, model@, system@, text@, images,
            image_note@, parts, max_tokens, text_required),
{
    let kv = chars_of(key_var);
    let key_missing = if kv.len() == 0 {
        String::new()
    } else {
        key_missing_exec(key_var, hinted)
    };
    let note = if images {
        text_of(chars_of(image_note))
    } else {
        String::new()
    };
    ApiCall {
        format,
        url,
        key_var: text_of(kv),
        key_missing,
        model,
        system,
        text,
        images,
        image_note: note,
        parts,
        max_tokens,
        text_required,
    }
}

fn copy_text(s: &String) -> (r: String)
    ensures
        r@ == s@,
{
    text_of(chars_of(s.as_str()))
}

fn anthropic_url_exec() -> (r: String)
    ensures
        r@ == anthropic_url(),
{
    text_of(lit("https://api.anthropic.com/v1/messages"))
}

fn openai_url_exec() -> (r: String)
    ensures
        r@ == openai_url(),
{
    text_of(lit("https://api.openai.com/v1/chat/completions"))
}

fn mistral_url_exec() -> (r: String)
    ensures
        r@ == mistral_url(),
{
    text_of(lit("https://api.mistral.ai/v1/chat/completions"))
}

fn ollama_url_exec(s: &SummarizationConfig) -> (r: String)
    ensures
        r@ == s.ollama_url@ + "/api/generate"@,
{
    cat(s.ollama_url.as_str(), "/api/generate")
}

fn err_text(m: &str) -> (r: Result<ApiCall, String>)
    ensures
        call_result_view(r) == Err::<CallModel, Seq<char>>(m@),
{
    Err(text_of(lit(m)))
}

fn chunk_call(engine: SummaryEngine, text: &String, s: &SummarizationConfig, images: bool) -> (r: Result<ApiCall, String>)
    ensures
        forall|index: nat, total: nat, screens: Seq<Seq<char>>|
            call_result_view(r) == #[trigger] call_for(
                RequestModel::Chunk { engine, index, total, text: text@, screens },
                *s,
                images,
            ),
{
    let t = cat("Summarize this transcript:\n\n", text.as_str());
    match engine {
        SummaryEngine::Anthropic => if chars_of(s.anthropic_model.as_str()).len() == 0 {
            err_text("no Anthropic model configured: set [summarization] anthropic_model in config.toml")
        } else {
            Ok(make_call(WireFormat::Messages, anthropic_url_exec(), "ANTHROPIC_API_KEY", true,
                copy_text(&s.anthropic_model), text_of(lit(SYSTEM_PROMPT)), t, images,
                "The images above show what was on screen during this meeting. Use them for context when speakers reference visual content.\n\n",
                true, Some(1024u32), true))
        },
        SummaryEngine::OpenAi => {
            let model = if images { text_of(lit("gpt-4o")) } else { text_of(lit("gpt-4o-mini")) };
            Ok(make_call(WireFormat::Chat, openai_url_exec(), "OPENAI_API_KEY", true, model,
                text_of(lit(SYSTEM_PROMPT)), t, images,
                "The images above show what was on screen during this meeting. Use them for context.\n\n",
                true, Some(1024u32), false))
        },
        SummaryEngine::Mistral => Ok(make_call(WireFormat::Chat, mistral_url_exec(), "MISTRAL_API_KEY",
            true, copy_text(&s.mistral_model), text_of(lit(SYSTEM_PROMPT)), t, images,
            "The images above show what was on screen during this meeting. Use them for context.\n\n",
            true, Some(1024u32), false)),
        SummaryEngine::Ollama => {
            let mut p = lit(SYSTEM_PROMPT);
            push_all(&mut p, &lit("\n\n"));
            push_all(&mut p, &chars_of(t.as_str()));
            proof {
                reveal_strlit("");
            }
            let c = make_call(WireFormat::Generate, ollama_url_exec(s), "", true, copy_text(&s.ollama_model),
                String::new(), text_of(p), false, "", false, None, false);
            assert(call_view(c).key_var == Seq::<char>::empty());
            assert(call_view(c).key_missing == Seq::<char>::empty());
            assert(call_view(c).image_note == Seq::<char>::empty());
            assert(call_view(c).system == Seq::<char>::empty());
            Ok(c)
        },
        SummaryEngine::Agent => err_text("a whole prompt goes to an agent"),
    }
}

fn combine_call(engine: SummaryEngine, summaries: &String, s: &SummarizationConfig) -> (r: Result<ApiCall, String>)
    ensures
        forall|images: bool|
            call_result_view(r) == #[trigger] call_for(
                RequestModel::Combine { engine, summaries: summaries@ },
                *s,
                images,
            ),
{
    let t = cat("Combine these summaries:\n\n", summaries.as_str());
    let combine = "Combine these partial meeting summaries into a single cohesive summary. Use the same KEY POINTS / DECISIONS / ACTION ITEMS format.";
    match engine {
        SummaryEngine::Anthropic => if chars_of(s.anthropic_model.as_str()).len() == 0 {
            err_text("no Anthropic model configured: set [summarization] anthropic_model in config.toml")
        } else {
            Ok(make_call(WireFormat::Messages, anthropic_url_exec(), "ANTHROPIC_API_KEY", true,
                copy_text(&s.anthropic_model), text_of(lit(combine)), t, false, "", false,
                Some(1024u32), true))
        },
        SummaryEngine::Mistral => Ok(make_call(WireFormat::Chat, mistral_url_exec(), "MISTRAL_API_KEY",
            true, copy_text(&s.mistral_model), text_of(lit(combine)), t, false, "", false,
            Some(1024u32), false)),
        _ => err_text("this engine does not combine summaries"),
    }
}

fn mapping_call(engine: SummaryEngine, prompt: &String, s: &SummarizationConfig) -> (r: Result<ApiCall, String>)
    ensures
        forall|images: bool|
            call_result_view(r) == #[trigger] call_for(
                RequestModel::Mapping { engine, prompt: prompt@ },
                *s,
                images,
            ),
{
    match engine {
        SummaryEngine::Anthropic => if chars_of(s.anthropic_model.as_str()).len() == 0 {
            err_text("no Anthropic model configured: set [summarization] anthropic_model in config.toml")
        } else {
            Ok(make_call(WireFormat::Messages, anthropic_url_exec(), "ANTHROPIC_API_KEY", false,
                copy_text(&s.anthropic_model), String::new(), copy_text(prompt), false, "", false,
                Some(256u32), true))
        },
        SummaryEngine::OpenAi => Ok(make_call(WireFormat::Chat, openai_url_exec(), "OPENAI_API_KEY", false,
            text_of(lit("gpt-4o-mini")), String::new(), copy_text(prompt), false, "", false,
            Some(256u32), true)),
        SummaryEngine::Mistral => Ok(make_call(WireFormat::Chat, mistral_url_exec(), "MISTRAL_API_KEY",
            false, copy_text(&s.mistral_model), String::new(), copy_text(prompt), false, "", false,
            Some(256u32), true)),
        SummaryEngine::Ollama => {
            proof {
                reveal_strlit("");
            }
            let c = make_call(WireFormat::Generate, ollama_url_exec(s), "", false,
                copy_text(&s.ollama_model), String::new(), copy_text(prompt), false, "", false, None,
                true);
            assert(call_view(c).key_var == Seq::<char>::empty());
            assert(call_view(c).system == Seq::<char>::empty());
            assert(call_view(c).key_missing == Seq::<char>::empty());
            assert(call_view(c).image_note == Seq::<char>::empty());
            Ok(c)
        },
        SummaryEngine::Agent => err_text("a whole prompt goes to an agent"),
    }
}

/// The HTTP call that answers `q` (see [`call_for`]); `images` says whether
/// screenshots were read for it.
pub fn api_call(q: &LlmRequest, s: &SummarizationConfig, images: bool) -> (r: Result<ApiCall, String>)
    ensures
        call_result_view(r) == call_for(request_view(*q), *s, images),
{
    match q {
        LlmRequest::Prompt(_) => err_text("a whole prompt goes to an agent"),
        LlmRequest::Chunk { engine, text, .. } => chunk_call(*engine, text, s, images),
        LlmRequest::Combine { engine, summaries } => combine_call(*engine, summaries, s),
        LlmRequest::Mapping { engine, prompt } => mapping_call(*engine, prompt, s),
    }
}

/// What a call's reply yields: its text when it has one; otherwise an error
/// where the call requires text, else an empty answer.
pub open spec fn reply_for(c: CallModel, text: Option<Seq<char>>) -> Result<Seq<char>, Seq<char>> {
    match text {
        Some(t) => Ok(t),
        None => if c.text_required {
            Err("No text in response"@)
        } else {
            Ok(seq![])
        },
    }
}

/// The answer to a call, from the text its reply carried (if any).
pub fn reply_text(c: &ApiCall, text: Option<String>) -> (r: Result<String, String>)
    ensures
        match r {
            Ok(t) => reply_for(call_view(*c), opt_view(text)) == Ok::<Seq<char>, Seq<char>>(t@),
            Err(e) => reply_for(call_view(*c), opt_view(text)) == Err::<Seq<char>, Seq<char>>(e@),
        },
{
    match text {
        Some(t) => Ok(t),
        None => if c.text_required {
            Err(text_of(lit("No text in response")))
        } else {
            Ok(String::new())
        },
    }
}

/// The directories searched for an agent CLI that is not on `PATH`.
pub open spec fn agent_dirs(home: Seq<char>) -> Seq<Seq<char>> {
    seq![
        path_join(home, ".cargo/bin"@),
        path_join(home, ".local/bin"@),
        path_join(home, ".npm-global/bin"@),
        "/opt/homebrew/bin"@,
        "/usr/local/bin"@,
        "/usr/bin"@,
    ]
}

/// Where the agent `cmd` may be installed, in the order they are tried.
pub open spec fn agent_candidates(cmd: Seq<char>, home: Seq<char>) -> Seq<Seq<char>> {
    agent_dirs(home).map_values(|d: Seq<char>| path_join(d, cmd))
}

/// The first of `cands` from `i` on that exists, else `fallback`.
pub open spec fn first_existing(cands: Seq<Seq<char>>, exists: Seq<bool>, i: nat, fallback: Seq<char>) -> Seq<char>
    decreases cands.len() - i,
{
    if i >= cands.len() {
        fallback
    } else if exists[i as int] {
        cands[i as int]
    } else {
        first_existing(cands, exists, i + 1, fallback)
    }
}

/// The path an agent CLI `cmd` is run by: `cmd` itself when absolute; else
/// what `which` printed (`which_out`, trimmed) when that is not blank; else
/// the first of [`agent_candidates`] that exists (`exists` says which do);
/// else the bare name.
pub open spec fn agent_path(cmd: Seq<char>, which_out: Option<Seq<char>>, home: Seq<char>, exists: Seq<bool>) -> Seq<char> {
    if starts_with(cmd, "/"@) {
        cmd
    } else if which_out is Some && trim(which_out->0).len() > 0 {
        trim(which_out->0)
    } else {
        first_existing(agent_candidates(cmd, home), exists, 0, cmd)
    }
}

fn agent_candidate_list(cmd: &[char], home: &[char]) -> (r: Vec<Vec<char>>)
    ensures
        views(r@) == agent_candidates(cmd@, home@),
{
    let dirs = vec![
        path_join_exec(home, &lit(".cargo/bin")),
        path_join_exec(home, &lit(".local/bin")),
        path_join_exec(home, &lit(".npm-global/bin")),
        lit("/opt/homebrew/bin"),
        lit("/usr/local/bin"),
        lit("/usr/bin"),
    ];
    assert(views(dirs@) =~= agent_dirs(home@));
    let mut r: Vec<Vec<char>> = Vec::new();
    let mut i: usize = 0;
    while i < dirs.len()
        invariant
            i <= dirs@.len(),
            views(dirs@) == agent_dirs(home@),
            views(r@) == agent_candidates(cmd@, home@).take(i as int),
        decreases dirs.len() - i,
    {
        let ghost before = r@;
        r.push(path_join_exec(&dirs[i], cmd));
        proof {
            assert(views(dirs@)[i as int] == dirs@[i as int]@);
            assert(agent_candidates(cmd@, home@)[i as int] == path_join(agent_dirs(home@)[i as int], cmd@));
            assert(views(r@) =~= views(before).push(r@[i as int]@));
            assert(views(r@) =~= agent_candidates(cmd@, home@).take(i + 1));
        }
        i += 1;
    }
    assert(agent_candidates(cmd@, home@).take(6) =~= agent_candidates(cmd@, home@));
    r
}

/// The path an agent CLI is run by, given what was found: see [`agent_path`].
pub fn choose_agent_path(cmd: &str, which_out: Option<String>, home: &str, exists: &[bool]) -> (r: String)
    requires
        exists@.len() == 6,
    ensures
        r@ == agent_path(cmd@, opt_view(which_out), home@, exists@),
{
    let c = chars_of(cmd);
    if starts_with_chars(&c, &lit("/")) {
        return string_from(&c);
    }
    if let Some(out) = which_out {
        let t = trim_ws(&chars_of(out.as_str()));
        if t.len() > 0 {
            return string_from(&t);
        }
    }
    let cands = agent_candidate_list(&c, &chars_of(home));
    let ghost cs = agent_candidates(cmd@, home@);
    assert(cands@.len() == 6) by {
        assert(views(cands@).len() == cands@.len());
    }
    let mut i: usize = 6;
    let mut found = c;
    while i > 0
        invariant
            i <= 6,
            cands@.len() == 6,
            views(cands@) == cs,
            exists@.len() == 6,
            found@ == first_existing(cs, exists@, i as nat, cmd@),
        decreases i,
    {
        i -= 1;
        if exists[i] {
            found = crate::text::copy_chars(&cands[i]);
            assert(found@ == cs[i as int]);
        }
    }
    string_from(&found)
}

/// Finds the agent CLI `cmd`: absolute as given, else on `PATH` as `which`
/// printed it (`which_out`, `None` when `which` failed), else in the usual
/// install directories under `home` and the system's, else the bare name
/// (which the spawn will then look up).
pub fn resolve_agent_path(cmd: &str, which_out: Option<String>, home: &str) -> (r: String)
    ensures
        starts_with(cmd@, "/"@) ==> r@ == cmd@,
        !starts_with(cmd@, "/"@) && which_out is Some && trim(opt_view(which_out)->0).len() > 0
            ==> r@ == trim(opt_view(which_out)->0),
        !starts_with(cmd@, "/"@) && !(which_out is Some && trim(opt_view(which_out)->0).len() > 0)
            ==> r@ == cmd@ || agent_candidates(cmd@, home@).contains(r@),
{
    let c = chars_of(cmd);
    if starts_with_chars(&c, &lit("/")) {
        return string_from(&c);
    }
    if let Some(out) = &which_out {
        let t = trim_ws(&chars_of(out.as_str()));
        if t.len() > 0 {
            return string_from(&t);
        }
    }
    let cands = agent_candidate_list(&c, &chars_of(home));
    let ghost cs = agent_candidates(cmd@, home@);
    let mut exists: Vec<bool> = Vec::new();
    let mut i: usize = 0;
    while i < cands.len()
        invariant
            i <= cands@.len(),
            exists@.len() == i,
            views(cands@) == cs,
        decreases cands.len() - i,
    {
        let p = string_from(&cands[i]);
        exists.push(path_exists(p.as_str()));
        i += 1;
    }
    assert(cands@.len() == 6) by {
        assert(views(cands@).len() == cands@.len());
    }
    let r = choose_agent_path(cmd, which_out, home, &exists);
    proof {
        lemma_first_existing_in(cs, exists@, 0, cmd@);
    }
    r
}

proof fn lemma_first_existing_in(cands: Seq<Seq<char>>, exists: Seq<bool>, i: nat, fallback: Seq<char>)
    ensures
        first_existing(cands, exists, i, fallback) == fallback
            || cands.contains(first_existing(cands, exists, i, fallback)),
    decreases cands.len() - i,
{
    if i < cands.len() {
        if exists[i as int] {
            assert(cands[i as int] == cands[i as int]);
        } else {
            lemma_first_existing_in(cands, exists, i + 1, fallback);
        }
    }
}

} // verus!
